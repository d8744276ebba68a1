//! What the words of the contracts mean, said of the values themselves: a view holds every field
//! as it is, nothing is left out of a review or of a fingerprint, and every text that is shown
//! stands in its place.
use crate::command;
use crate::command::{TrustCommand, TrustEvent, TrustRefusal, TrustReport};
use crate::config;
use crate::config::{McpConfig, McpServerConfig, ServerView};
use crate::display;
use crate::display::{ServerDisplay, ServerTexts};
use crate::fingerprint;
use crate::json;
use crate::json::Json;
use crate::laws;
use crate::maps;
use crate::paths;
use crate::paths::{ProjectRootError, ResolvedPath};
use crate::review;
use crate::review::{ProjectMcpReview, ProjectMcpServerReview, ProjectReview, ServerReview};
use crate::store;
use crate::store::{StoreWarning, StoredTrust};
use crate::text;
use vstd::prelude::*;

verus! {

/// The view of a server holds each of its fields: texts by their characters, the arguments in
/// their order, and what is not set as not set.
pub proof fn law_server_view_is_faithful(server: McpServerConfig)
    ensures
        server@.stdio == server.stdio,
        server@.content.command == server.command@,
        server@.content.args.len() == server.args@.len(),
        forall|i: int|
            0 <= i < server.args@.len() ==> #[trigger] server@.content.args[i] == server.args@[i]@,
        server@.content.env == server.env@,
        server@.content.shared == server.shared,
        server@.content.transport is Some <==> server.transport is Some,
        server.transport matches Some(transport) ==> server@.content.transport == Some(transport@),
        server@.content.url is Some <==> server.url is Some,
        server.url matches Some(url) ==> server@.content.url == Some(url@),
        server@.content.headers == server.headers@,
        server@.content.enabled == server.enabled,
        server@.content.disabled == server.disabled,
        server@.content.timeout_secs == server.timeout_secs,
{
}

/// The view of a configuration is the view of its map of servers.
pub proof fn law_config_view_is_faithful(config: McpConfig)
    ensures
        config@ == config.servers@,
{
}

/// The view of a review holds each of its fields, and each field of each of its servers.
pub proof fn law_review_view_is_faithful(review: ProjectMcpReview)
    ensures
        review@.project_root == review.project_root,
        review@.fingerprint == review.fingerprint@,
        review@.servers.len() == review.servers@.len(),
        forall|i: int|
            0 <= i < review.servers@.len() ==> {
                &&& (#[trigger] review@.servers[i]).name == review.servers@[i].name@
                &&& review@.servers[i].command == review.servers@[i].command@
                &&& review@.servers[i].args.len() == review.servers@[i].args@.len()
                &&& review@.servers[i].env == review.servers@[i].env@
            },
        forall|i: int, j: int|
            0 <= i < review.servers@.len() && 0 <= j < review.servers@[i].args@.len()
                ==> #[trigger] review@.servers[i].args[j] == review.servers@[i].args@[j]@,
{
}

/// The view of a reviewed server holds each of its fields.
pub proof fn law_server_review_view_is_faithful(server: ProjectMcpServerReview)
    ensures
        server@.name == server.name@,
        server@.command == server.command@,
        server@.args.len() == server.args@.len(),
        forall|i: int| 0 <= i < server.args@.len() ==> #[trigger] server@.args[i] == server.args@[i]@,
        server@.env == server.env@,
{
}

/// The view of a displayed server holds each of its texts, in their order.
pub proof fn law_display_view_is_faithful(servers: Seq<ServerDisplay>)
    ensures
        display::display_views(servers).len() == servers.len(),
        forall|i: int|
            0 <= i < servers.len() ==> {
                &&& (#[trigger] display::display_views(servers)[i]).name == servers[i].name@
                &&& display::display_views(servers)[i].command == servers[i].command@
                &&& display::display_views(servers)[i].args.len() == servers[i].args@.len()
                &&& display::display_views(servers)[i].environment.len()
                    == servers[i].environment@.len()
            },
        forall|i: int, j: int|
            0 <= i < servers.len() && 0 <= j < servers[i].args@.len()
                ==> #[trigger] display::display_views(servers)[i].args[j] == servers[i].args@[j]@,
        forall|i: int, j: int|
            0 <= i < servers.len() && 0 <= j < servers[i].environment@.len()
                ==> #[trigger] display::display_views(servers)[i].environment[j]
                == servers[i].environment@[j]@,
{
}

/// Lists of texts are taken text by text, and lists of such lists list by list.
pub proof fn law_text_views_are_faithful(texts: Seq<String>, lists: Seq<Vec<String>>)
    ensures
        config::text_views(texts).len() == texts.len(),
        forall|i: int|
            0 <= i < texts.len() ==> #[trigger] config::text_views(texts)[i] == texts[i]@,
        display::redacted_texts(lists).len() == lists.len(),
        forall|i: int|
            0 <= i < lists.len() ==> (#[trigger] display::redacted_texts(lists)[i]).len()
                == lists[i]@.len(),
        forall|i: int, j: int|
            0 <= i < lists.len() && 0 <= j < lists[i]@.len()
                ==> #[trigger] display::redacted_texts(lists)[i][j] == lists[i]@[j]@,
{
}

/// A written member is taken by its name and its value.
pub proof fn law_text_pair_is_faithful(pair: (String, String))
    ensures
        json::text_pair(pair).0 == pair.0@,
        json::text_pair(pair).1 == pair.1@,
{
}

/// The outcome of a review tells the same as its result: nothing to review, the review itself, or
/// the very error.
pub proof fn law_outcome_is_faithful(result: Result<Option<ProjectMcpReview>, ProjectRootError>)
    ensures
        review::outcome(result) == Ok::<_, ProjectRootError>(None::<ProjectReview>) <==> result
            == Ok::<_, ProjectRootError>(None::<ProjectMcpReview>),
        result matches Ok(Some(found)) ==> review::outcome(result) == Ok::<_, ProjectRootError>(
            Some(found@),
        ),
        review::outcome(result) is Err <==> result is Err,
        result matches Err(error) ==> review::outcome(result) == Err::<
            Option<ProjectReview>,
            ProjectRootError,
        >(error),
{
}

/// The order of texts is that of their UTF-8 bytes: one text comes before another where its bytes
/// are a proper beginning of the other's, or where it has the smaller byte at the first place at
/// which they differ.
pub proof fn law_order_is_by_first_difference(a: Seq<char>, b: Seq<char>)
    ensures
        text::text_before(a, b) <==> exists|k: int|
            {
                &&& 0 <= k <= vstd::utf8::encode_utf8(a).len()
                &&& k < vstd::utf8::encode_utf8(b).len()
                &&& #[trigger] vstd::utf8::encode_utf8(a).take(k) == vstd::utf8::encode_utf8(b).take(
                    k,
                )
                &&& k == vstd::utf8::encode_utf8(a).len() || vstd::utf8::encode_utf8(a)[k]
                    < vstd::utf8::encode_utf8(b)[k]
            },
{
    lemma_first_difference(vstd::utf8::encode_utf8(a), vstd::utf8::encode_utf8(b));
}

proof fn lemma_first_difference(x: Seq<u8>, y: Seq<u8>)
    ensures
        text::bytes_before(x, y) <==> exists|k: int|
            {
                &&& 0 <= k <= x.len()
                &&& k < y.len()
                &&& #[trigger] x.take(k) == y.take(k)
                &&& k == x.len() || x[k] < y[k]
            },
    decreases x.len(),
{
    if x.len() > 0 && y.len() > 0 && x[0] == y[0] {
        let u = x.drop_first();
        let v = y.drop_first();
        lemma_first_difference(u, v);
        if text::bytes_before(u, v) {
            let k = choose|k: int|
                {
                    &&& 0 <= k <= u.len()
                    &&& k < v.len()
                    &&& #[trigger] u.take(k) == v.take(k)
                    &&& k == u.len() || u[k] < v[k]
                };
            assert forall|i: int| 0 <= i < k + 1 implies x[i] == y[i] by {
                if i > 0 {
                    assert(u.take(k)[i - 1] == v.take(k)[i - 1]);
                }
            }
            assert(x.take(k + 1) =~= y.take(k + 1));
        }
        if exists|k: int|
            {
                &&& 0 <= k <= x.len()
                &&& k < y.len()
                &&& #[trigger] x.take(k) == y.take(k)
                &&& k == x.len() || x[k] < y[k]
            } {
            let k = choose|k: int|
                {
                    &&& 0 <= k <= x.len()
                    &&& k < y.len()
                    &&& #[trigger] x.take(k) == y.take(k)
                    &&& k == x.len() || x[k] < y[k]
                };
            assert(k > 0);
            assert forall|i: int| 0 <= i < k - 1 implies u[i] == v[i] by {
                assert(x.take(k)[i + 1] == y.take(k)[i + 1]);
            }
            assert(u.take(k - 1) =~= v.take(k - 1));
        }
    } else if text::bytes_before(x, y) {
        assert(x.take(0) =~= y.take(0));
    } else {
        assert forall|k: int| 0 < k <= x.len() && k < y.len() implies #[trigger] x.take(k)
            != y.take(k) by {
            assert(x.take(k)[0] != y.take(k)[0]);
        }
    }
}

/// The number that digits stand for, the most significant one first, where `0` to `9` count from
/// zero and `a` onwards from ten.
pub open spec fn number_read(digits: Seq<char>, base: nat) -> int
    decreases digits.len(),
{
    if digits.len() == 0 {
        0
    } else {
        number_read(digits.drop_last(), base) * base + (if digits.last() <= '9' {
            digits.last() as int - '0' as int
        } else {
            digits.last() as int - 'a' as int + 10
        })
    }
}

/// A number in decimal reads back as the number. It is made of decimal digits alone, and begins
/// with zero only where the number is zero.
pub proof fn law_decimal_reads_back(number: nat)
    ensures
        number_read(text::decimal(number), 10) == number,
        text::decimal(number).len() > 0,
        forall|i: int|
            0 <= i < text::decimal(number).len() ==> '0' <= #[trigger] text::decimal(number)[i]
                <= '9',
        text::decimal(number)[0] == '0' ==> number == 0 && text::decimal(number).len() == 1,
    decreases number,
{
    let digits = text::decimal(number);
    reveal_with_fuel(number_read, 2);
    if number >= 10 {
        law_decimal_reads_back(number / 10);
        assert(digits.drop_last() =~= text::decimal(number / 10));
        assert(digits[0] == text::decimal(number / 10)[0]);
    } else {
        assert(digits.drop_last() =~= seq![]);
    }
}

/// A number in hexadecimal reads back as the number. It is made of lowercase hexadecimal digits
/// alone, and begins with zero only where the number is zero.
pub proof fn law_hexadecimal_reads_back(number: nat)
    ensures
        number_read(text::hexadecimal(number), 16) == number,
        text::hexadecimal(number).len() > 0,
        forall|i: int|
            0 <= i < text::hexadecimal(number).len() ==> '0' <= #[trigger] text::hexadecimal(
                number,
            )[i] <= '9' || 'a' <= text::hexadecimal(number)[i] <= 'f',
        text::hexadecimal(number)[0] == '0' ==> number == 0 && text::hexadecimal(number).len() == 1,
    decreases number,
{
    let digits = text::hexadecimal(number);
    reveal_with_fuel(number_read, 2);
    if number >= 16 {
        law_hexadecimal_reads_back(number / 16);
        assert(digits.drop_last() =~= text::hexadecimal(number / 16));
        assert(digits[0] == text::hexadecimal(number / 16)[0]);
    } else {
        assert(digits.drop_last() =~= seq![]);
    }
}

/// Bytes in hexadecimal read back as the bytes: two lowercase digits for each, in their order.
pub proof fn law_hex_digits_read_back(bytes: Seq<u8>, i: int)
    requires
        0 <= i < bytes.len(),
    ensures
        fingerprint::hex_digits(bytes).len() == 2 * bytes.len(),
        number_read(fingerprint::hex_digits(bytes).subrange(2 * i, 2 * i + 2), 16) == bytes[i],
        '0' <= fingerprint::hex_digits(bytes)[2 * i] <= '9' || 'a' <= fingerprint::hex_digits(
            bytes,
        )[2 * i] <= 'f',
        '0' <= fingerprint::hex_digits(bytes)[2 * i + 1] <= '9' || 'a' <= fingerprint::hex_digits(
            bytes,
        )[2 * i + 1] <= 'f',
{
    let pair = fingerprint::hex_digits(bytes).subrange(2 * i, 2 * i + 2);
    assert((2 * i) / 2 == i && (2 * i) % 2 == 0);
    assert((2 * i + 1) / 2 == i && (2 * i + 1) % 2 == 1);
    assert(pair[0] == text::hex_digit(bytes[i] as nat / 16));
    assert(pair[1] == text::hex_digit(bytes[i] as nat % 16));
    assert(pair =~= seq![pair[0]].push(pair[1]));
    reveal_with_fuel(number_read, 3);
    assert(pair.drop_last() =~= seq![pair[0]]);
    assert(pair.drop_last().drop_last() =~= seq![]);
}

/// A finite map is listed whole: every entry stands in the listing with its value, nothing else
/// does, and the keys ascend.
pub proof fn law_listing_is_whole<W>(map: Map<Seq<char>, W>)
    requires
        map.dom().finite(),
    ensures
        maps::listing(map).len() == map.dom().len(),
        forall|i: int|
            0 <= i < maps::listing(map).len() ==> map.contains_key(
                (#[trigger] maps::listing(map)[i]).0,
            ) && map[maps::listing(map)[i].0] == maps::listing(map)[i].1,
        forall|key: Seq<char>| #[trigger]
            map.contains_key(key) ==> exists|i: int|
                0 <= i < maps::listing(map).len() && (#[trigger] maps::listing(map)[i]) == (
                    key,
                    map[key],
                ),
        forall|i: int, j: int|
            0 <= i < j < maps::listing(map).len() ==> text::text_before(
                (#[trigger] maps::listing(map)[i]).0,
                (#[trigger] maps::listing(map)[j]).0,
            ),
{
    let listing = maps::listing(map);
    maps::lemma_finite_listed(map);
    maps::lemma_ascending_distinct(listing);
    maps::lemma_collected_len(listing);
    assert forall|i: int| 0 <= i < listing.len() implies map.contains_key((#[trigger] listing[i]).0)
        && map[listing[i].0] == listing[i].1 by {
        maps::lemma_collected_at(listing, i);
    }
    assert forall|key: Seq<char>| #[trigger] map.contains_key(key) implies exists|i: int|
        0 <= i < listing.len() && (#[trigger] listing[i]) == (key, map[key]) by {
        maps::lemma_collected_from(listing, key);
        let i = choose|i: int| 0 <= i < listing.len() && (#[trigger] listing[i]).0 == key;
        maps::lemma_collected_at(listing, i);
        assert(listing[i] == (key, map[key]));
    }
}

/// How the simple JSON values are written.
pub proof fn law_json_of_simple_values(number: nat, value: Seq<char>)
    ensures
        json::render(Json::Null) == "null"@,
        json::render(Json::Flag(true)) == "true"@,
        json::render(Json::Flag(false)) == "false"@,
        json::render(Json::Number(number)) == text::decimal(number),
        json::render(Json::Text(value)) == json::quoted(value),
        json::render(Json::List(seq![])) == "[]"@,
        json::render(Json::Object(seq![])) == "{}"@,
{
    reveal_strlit("null");
    reveal_strlit("true");
    reveal_strlit("false");
    reveal_strlit("[]");
    reveal_strlit("{}");
    assert(json::render(Json::List(seq![])) =~= seq!['[', ']']);
    assert(json::render(Json::Object(seq![])) =~= seq!['{', '}']);
}

/// A JSON string stands between double quotes and is written character by character.
pub proof fn law_json_of_joined_texts(a: Seq<char>, b: Seq<char>)
    ensures
        json::quoted(seq![]) == seq!['"', '"'],
        json::quoted(a).len() >= 2,
        json::quoted(a + b) == json::quoted(a).drop_last() + json::quoted(b).drop_first(),
{
    assert(json::quoted(seq![]) =~= seq!['"', '"']);
    lemma_escaped_joined(a, b);
    assert(json::quoted(a + b) =~= json::quoted(a).drop_last() + json::quoted(b).drop_first());
}

proof fn lemma_escaped_joined(a: Seq<char>, b: Seq<char>)
    ensures
        json::escaped(a + b) == json::escaped(a) + json::escaped(b),
    decreases a.len(),
{
    if a.len() == 0 {
        assert(a + b =~= b);
    } else {
        lemma_escaped_joined(a.drop_first(), b);
        assert((a + b).drop_first() =~= a.drop_first() + b);
    }
    assert(json::escaped(a + b) =~= json::escaped(a) + json::escaped(b));
}

/// How a single character is written in a JSON string: the quote, the backslash and five control
/// codes behind a backslash, the other control codes below U+0020 as `\u00..`, and every other
/// character as it is.
pub proof fn law_json_of_character(c: char)
    ensures
        c == '"' ==> json::quoted(seq![c]) == seq!['"', '\\', '"', '"'],
        c == '\\' ==> json::quoted(seq![c]) == seq!['"', '\\', '\\', '"'],
        c as int == 8 ==> json::quoted(seq![c]) == seq!['"', '\\', 'b', '"'],
        c as int == 9 ==> json::quoted(seq![c]) == seq!['"', '\\', 't', '"'],
        c as int == 10 ==> json::quoted(seq![c]) == seq!['"', '\\', 'n', '"'],
        c as int == 12 ==> json::quoted(seq![c]) == seq!['"', '\\', 'f', '"'],
        c as int == 13 ==> json::quoted(seq![c]) == seq!['"', '\\', 'r', '"'],
        c as int <= 7 || c as int == 11 || 14 <= c as int <= 31 ==> {
            &&& json::quoted(seq![c]).len() == 8
            &&& json::quoted(seq![c]).take(5) == seq!['"', '\\', 'u', '0', '0']
            &&& number_read(json::quoted(seq![c]).subrange(5, 7), 16) == c as int
            &&& json::quoted(seq![c])[7] == '"'
        },
        c as int >= 32 && c != '"' && c != '\\' ==> json::quoted(seq![c]) == seq!['"', c, '"'],
{
    let one = seq![c];
    assert(one.drop_first() =~= seq![]);
    reveal_with_fuel(json::escaped, 2);
    assert(json::escaped(one) =~= json::escape(c));
    assert(json::quoted(one) =~= seq!['"'] + json::escape(c) + seq!['"']);
    if c as int <= 7 || c as int == 11 || 14 <= c as int <= 31 {
        let digits = json::quoted(one).subrange(5, 7);
        assert(json::quoted(one).take(5) =~= seq!['"', '\\', 'u', '0', '0']);
        assert(digits[0] == text::hex_digit(c as nat / 16));
        assert(digits[1] == text::hex_digit(c as nat % 16));
        reveal_with_fuel(number_read, 3);
        assert(digits.drop_last() =~= seq![digits[0]]);
        assert(digits.drop_last().drop_last() =~= seq![]);
    }
}

/// A further item is written at the end of a list, behind a comma where it is not the first.
pub proof fn law_json_list_grows_at_its_end(items: Seq<Json>, item: Json)
    ensures
        json::render(Json::List(items.push(item))) == json::render(Json::List(items)).drop_last()
            + (if items.len() == 0 {
            seq![]
        } else {
            seq![',']
        }) + json::render(item) + seq![']'],
{
    lemma_items_pushed(items, item);
    assert(json::render(Json::List(items.push(item))) =~= json::render(
        Json::List(items),
    ).drop_last() + (if items.len() == 0 {
        seq![]
    } else {
        seq![',']
    }) + json::render(item) + seq![']']);
}

proof fn lemma_items_pushed(items: Seq<Json>, item: Json)
    ensures
        json::render_items(items.push(item)) == json::render_items(items) + (if items.len() == 0 {
            seq![]
        } else {
            seq![',']
        }) + json::render(item),
    decreases items.len(),
{
    let more = items.push(item);
    if items.len() > 0 {
        let rest = items.subrange(1, items.len() as int);
        lemma_items_pushed(rest, item);
        assert(more.subrange(1, more.len() as int) =~= rest.push(item));
        reveal_with_fuel(json::render_items, 2);
    }
    assert(json::render_items(more) =~= json::render_items(items) + (if items.len() == 0 {
        seq![]
    } else {
        seq![',']
    }) + json::render(item));
}

/// A further member is written at the end of an object, behind a comma where it is not the first:
/// its name as a string, a colon, and its value.
pub proof fn law_json_object_grows_at_its_end(
    members: Seq<(Seq<char>, Json)>,
    name: Seq<char>,
    value: Json,
)
    ensures
        json::render(Json::Object(members.push((name, value)))) == json::render(
            Json::Object(members),
        ).drop_last() + (if members.len() == 0 {
            seq![]
        } else {
            seq![',']
        }) + json::quoted(name) + seq![':'] + json::render(value) + seq!['}'],
{
    lemma_members_pushed(members, name, value);
    assert(json::render(Json::Object(members.push((name, value)))) =~= json::render(
        Json::Object(members),
    ).drop_last() + (if members.len() == 0 {
        seq![]
    } else {
        seq![',']
    }) + json::quoted(name) + seq![':'] + json::render(value) + seq!['}']);
}

proof fn lemma_members_pushed(members: Seq<(Seq<char>, Json)>, name: Seq<char>, value: Json)
    ensures
        json::render_members(members.push((name, value))) == json::render_members(members) + (
        if members.len() == 0 {
            seq![]
        } else {
            seq![',']
        }) + json::quoted(name) + seq![':'] + json::render(value),
    decreases members.len(),
{
    let more = members.push((name, value));
    if members.len() > 0 {
        let rest = members.subrange(1, members.len() as int);
        lemma_members_pushed(rest, name, value);
        assert(more.subrange(1, more.len() as int) =~= rest.push((name, value)));
        reveal_with_fuel(json::render_members, 2);
    }
    assert(json::render_members(more) =~= json::render_members(members) + (if members.len() == 0 {
        seq![]
    } else {
        seq![',']
    }) + json::quoted(name) + seq![':'] + json::render(value));
}

/// An object put together from written values is the object of those values.
pub proof fn law_framed_object_is_object(
    members: Seq<(Seq<char>, Json)>,
    written: Seq<(Seq<char>, Seq<char>)>,
)
    requires
        written.len() == members.len(),
        forall|i: int|
            0 <= i < members.len() ==> (#[trigger] written[i]).0 == members[i].0 && written[i].1
                == json::render(members[i].1),
    ensures
        json::framed_object(written) == json::render(Json::Object(members)),
{
    json::lemma_framed_object(members, written);
}

/// A map of texts becomes a JSON object with one member for each entry, in ascending order of the
/// keys: the key, and the value as a string.
pub proof fn law_map_is_written_whole(map: Map<Seq<char>, Seq<char>>)
    requires
        map.dom().finite(),
    ensures
        fingerprint::map_value(map) is Object,
        fingerprint::map_value(map)->Object_0.len() == map.dom().len(),
        forall|i: int|
            0 <= i < map.dom().len() ==> {
                &&& map.contains_key((#[trigger] fingerprint::map_value(map)->Object_0[i]).0)
                &&& fingerprint::map_value(map)->Object_0[i].1 == Json::Text(
                    map[fingerprint::map_value(map)->Object_0[i].0],
                )
            },
        forall|key: Seq<char>| #[trigger]
            map.contains_key(key) ==> exists|i: int|
                0 <= i < map.dom().len() && (#[trigger] fingerprint::map_value(map)->Object_0[i])
                    == (key, Json::Text(map[key])),
        forall|i: int, j: int|
            0 <= i < j < map.dom().len() ==> text::text_before(
                (#[trigger] fingerprint::map_value(map)->Object_0[i]).0,
                (#[trigger] fingerprint::map_value(map)->Object_0[j]).0,
            ),
{
    law_listing_is_whole(map);
    let listing = maps::listing(map);
    let members = fingerprint::map_value(map)->Object_0;
    assert forall|i: int| 0 <= i < listing.len() implies #[trigger] members[i] == (
        listing[i].0,
        Json::Text(listing[i].1),
    ) by {}
    assert forall|key: Seq<char>| #[trigger] map.contains_key(key) implies exists|i: int|
        0 <= i < map.dom().len() && (#[trigger] members[i]) == (key, Json::Text(map[key])) by {
        let i = choose|i: int|
            0 <= i < listing.len() && (#[trigger] listing[i]) == (key, map[key]);
        assert(members[i] == (key, Json::Text(map[key])));
    }
}

/// What a fingerprint is taken of is a JSON object with one member for each server, in ascending
/// order of their names. The member of a server is its name and an object with its ten settings,
/// each under its own name; what is not set is `null`.
pub proof fn law_every_setting_is_encoded(
    servers: Map<Seq<char>, ServerView>,
    name: Seq<char>,
) -> (found: (Json, int))
    requires
        servers.dom().finite(),
        servers.contains_key(name),
    ensures
        fingerprint::encoding(servers) == json::render(found.0),
        found.0 is Object,
        found.0->Object_0.len() == servers.dom().len(),
        forall|i: int|
            0 <= i < servers.dom().len() ==> servers.contains_key(
                (#[trigger] found.0->Object_0[i]).0,
            ),
        forall|i: int, j: int|
            0 <= i < j < servers.dom().len() ==> text::text_before(
                (#[trigger] found.0->Object_0[i]).0,
                (#[trigger] found.0->Object_0[j]).0,
            ),
        0 <= found.1 < servers.dom().len(),
        found.0->Object_0[found.1].0 == name,
        found.0->Object_0[found.1].1 is Object,
        ({
            let server = servers[name].content;
            let members = found.0->Object_0[found.1].1->Object_0;
            &&& members.len() == 10
            &&& members[0] == ("command"@, Json::Text(server.command))
            &&& members[1].0 == "args"@
            &&& members[1].1 is List
            &&& members[1].1->List_0.len() == server.args.len()
            &&& forall|i: int|
                0 <= i < server.args.len() ==> #[trigger] members[1].1->List_0[i] == Json::Text(
                    server.args[i],
                )
            &&& members[2] == ("env"@, fingerprint::map_value(server.env))
            &&& members[3] == ("shared"@, Json::Flag(server.shared))
            &&& members[4].0 == "transport"@
            &&& server.transport is None ==> members[4].1 == Json::Null
            &&& server.transport is Some ==> members[4].1 == Json::Text(server.transport->0)
            &&& members[5].0 == "url"@
            &&& server.url is None ==> members[5].1 == Json::Null
            &&& server.url is Some ==> members[5].1 == Json::Text(server.url->0)
            &&& members[6] == ("headers"@, fingerprint::map_value(server.headers))
            &&& members[7].0 == "enabled"@
            &&& server.enabled is None ==> members[7].1 == Json::Null
            &&& server.enabled is Some ==> members[7].1 == Json::Flag(server.enabled->0)
            &&& members[8].0 == "disabled"@
            &&& server.disabled is None ==> members[8].1 == Json::Null
            &&& server.disabled is Some ==> members[8].1 == Json::Flag(server.disabled->0)
            &&& members[9].0 == "timeout_secs"@
            &&& server.timeout_secs is None ==> members[9].1 == Json::Null
            &&& server.timeout_secs is Some ==> members[9].1 == Json::Number(
                server.timeout_secs->0 as nat,
            )
        }),
{
    let contents = fingerprint::contents(servers);
    let document = fingerprint::document(contents);
    assert(contents.dom() =~= servers.dom());
    law_listing_is_whole(contents);
    let listing = maps::listing(contents);
    assert(contents.contains_key(name));
    let i = choose|i: int| 0 <= i < listing.len() && (#[trigger] listing[i]) == (name, contents[name]);
    let members = document->Object_0;
    assert forall|i: int| 0 <= i < listing.len() implies #[trigger] members[i] == (
        listing[i].0,
        Json::Object(fingerprint::server_members(listing[i].1)),
    ) by {}
    assert(members[i].1 == Json::Object(fingerprint::server_members(servers[name].content)));
    (document, i)
}

/// A configuration without servers is written as an empty object.
pub proof fn law_no_servers_are_an_empty_object()
    ensures
        fingerprint::encoding(Map::<Seq<char>, ServerView>::empty()) == "{}"@,
{
    let none = fingerprint::contents(Map::<Seq<char>, ServerView>::empty());
    assert(none.dom() =~= Set::empty());
    law_listing_is_whole(none);
    law_json_of_simple_values(0, seq![]);
    assert(fingerprint::document(none)->Object_0 =~= seq![]);
}

/// Two configurations with the same encoding define the same servers, each with the same command,
/// arguments, environment, transport, address, headers, flags and timeout.
pub proof fn law_same_encoding_means_same_servers(a: McpConfig, b: McpConfig, name: Seq<char>)
    requires
        fingerprint::encoding(a@) == fingerprint::encoding(b@),
    ensures
        a@.contains_key(name) <==> b@.contains_key(name),
        a@.contains_key(name) ==> {
            &&& a@[name].content.command == b@[name].content.command
            &&& a@[name].content.args == b@[name].content.args
            &&& a@[name].content.env == b@[name].content.env
            &&& a@[name].content.shared == b@[name].content.shared
            &&& a@[name].content.transport == b@[name].content.transport
            &&& a@[name].content.url == b@[name].content.url
            &&& a@[name].content.headers == b@[name].content.headers
            &&& a@[name].content.enabled == b@[name].content.enabled
            &&& a@[name].content.disabled == b@[name].content.disabled
            &&& a@[name].content.timeout_secs == b@[name].content.timeout_secs
        },
{
    laws::lemma_is_configuration(a);
    laws::lemma_is_configuration(b);
    laws::law_encoding_tells_configurations_apart(a@, b@);
    assert(a@.contains_key(name) == b@.contains_key(name));
}

/// Two projects whose reviews are taken of the same encoding define the same local commands, each
/// with the same command, arguments, environment, transport, address, headers, flags and timeout.
pub proof fn law_same_encoding_means_same_local_commands(a: McpConfig, b: McpConfig, name: Seq<char>)
    requires
        fingerprint::encoding(config::stdio_only(a@)) == fingerprint::encoding(
            config::stdio_only(b@),
        ),
    ensures
        a@.contains_key(name) && a@[name].stdio <==> b@.contains_key(name) && b@[name].stdio,
        a@.contains_key(name) && a@[name].stdio ==> {
            &&& a@[name].content.command == b@[name].content.command
            &&& a@[name].content.args == b@[name].content.args
            &&& a@[name].content.env == b@[name].content.env
            &&& a@[name].content.shared == b@[name].content.shared
            &&& a@[name].content.transport == b@[name].content.transport
            &&& a@[name].content.url == b@[name].content.url
            &&& a@[name].content.headers == b@[name].content.headers
            &&& a@[name].content.enabled == b@[name].content.enabled
            &&& a@[name].content.disabled == b@[name].content.disabled
            &&& a@[name].content.timeout_secs == b@[name].content.timeout_secs
        },
{
    laws::lemma_is_configuration(a);
    laws::lemma_is_configuration(b);
    laws::law_encoding_tells_configurations_apart(
        config::stdio_only(a@),
        config::stdio_only(b@),
    );
    assert(config::stdio_only(a@).contains_key(name) == config::stdio_only(b@).contains_key(name));
}

/// The encoding depends on nothing but the names of the servers and what a trust decision covers
/// of them: whether a server is a local command has no part in it.
pub proof fn law_same_servers_have_same_encoding(
    a: Map<Seq<char>, ServerView>,
    b: Map<Seq<char>, ServerView>,
)
    requires
        forall|name: Seq<char>| #[trigger] a.contains_key(name) <==> b.contains_key(name),
        forall|name: Seq<char>| #[trigger]
            a.contains_key(name) ==> a[name].content == b[name].content,
    ensures
        fingerprint::encoding(a) == fingerprint::encoding(b),
{
    assert(fingerprint::contents(a) =~= fingerprint::contents(b));
}

/// A fingerprint is the SHA-256 digest of the UTF-8 bytes of the encoding, in hexadecimal.
pub proof fn law_fingerprint_is_of_the_encoding(servers: Map<Seq<char>, ServerView>)
    ensures
        fingerprint::fingerprint_text(servers) == fingerprint::hex_digits(
            fingerprint::sha256(vstd::utf8::encode_utf8(fingerprint::encoding(servers))),
        ),
{
}

/// Of the servers of a configuration exactly the local commands are kept, each as it is.
pub proof fn law_local_commands_are_kept_as_they_are(
    servers: Map<Seq<char>, ServerView>,
    name: Seq<char>,
)
    ensures
        config::stdio_only(servers).contains_key(name) <==> servers.contains_key(name)
            && servers[name].stdio,
        servers.contains_key(name) && servers[name].stdio ==> config::stdio_only(servers)[name]
            == servers[name],
{
}

/// The review of a configuration tells each of its servers in full: its name, its command, all of
/// its arguments and all of its environment. It tells of nothing else, and in ascending order of
/// the names.
pub proof fn law_review_tells_servers_in_full(servers: Map<Seq<char>, ServerView>)
    requires
        servers.dom().finite(),
    ensures
        review::server_reviews(servers).len() == servers.dom().len(),
        forall|name: Seq<char>| #[trigger]
            servers.contains_key(name) ==> exists|i: int|
                {
                    &&& 0 <= i < review::server_reviews(servers).len()
                    &&& (#[trigger] review::server_reviews(servers)[i]).name == name
                    &&& review::server_reviews(servers)[i].command == servers[name].content.command
                    &&& review::server_reviews(servers)[i].args == servers[name].content.args
                    &&& review::server_reviews(servers)[i].env == servers[name].content.env
                },
        forall|i: int|
            0 <= i < review::server_reviews(servers).len() ==> {
                let told = #[trigger] review::server_reviews(servers)[i];
                &&& servers.contains_key(told.name)
                &&& told.command == servers[told.name].content.command
                &&& told.args == servers[told.name].content.args
                &&& told.env == servers[told.name].content.env
            },
        forall|i: int, j: int|
            0 <= i < j < review::server_reviews(servers).len() ==> text::text_before(
                (#[trigger] review::server_reviews(servers)[i]).name,
                (#[trigger] review::server_reviews(servers)[j]).name,
            ),
{
    law_listing_is_whole(servers);
    let listing = maps::listing(servers);
    let told = review::server_reviews(servers);
    assert forall|i: int| 0 <= i < listing.len() implies {
        &&& (#[trigger] told[i]).name == listing[i].0
        &&& told[i].command == listing[i].1.content.command
        &&& told[i].args == listing[i].1.content.args
        &&& told[i].env == listing[i].1.content.env
    } by {}
    assert forall|name: Seq<char>| #[trigger] servers.contains_key(name) implies exists|i: int|
        {
            &&& 0 <= i < told.len()
            &&& (#[trigger] told[i]).name == name
            &&& told[i].command == servers[name].content.command
            &&& told[i].args == servers[name].content.args
            &&& told[i].env == servers[name].content.env
        } by {
        let i = choose|i: int|
            0 <= i < listing.len() && (#[trigger] listing[i]) == (name, servers[name]);
        assert(told[i].name == name);
    }
}

/// The servers that a configuration defines are finitely many, and so are the local commands among
/// them.
pub proof fn law_configurations_are_finite(config: McpConfig)
    ensures
        config@.dom().finite(),
        config::stdio_only(config@).dom().finite(),
{
    laws::lemma_is_configuration(config);
}

/// What reviewing comes to: nothing where there is no server, whatever became of the path; else
/// an error where the path could not be resolved or is no directory, with that path; else a review
/// of that directory, with the fingerprint and the servers of the configuration.
pub proof fn law_what_reviewing_comes_to(
    resolved: ResolvedPath,
    servers: Map<Seq<char>, ServerView>,
)
    ensures
        review::config_review(resolved, servers) == Ok::<_, ProjectRootError>(
            None::<ProjectReview>,
        ) <==> forall|name: Seq<char>| !#[trigger] servers.contains_key(name),
        !(forall|name: Seq<char>| !#[trigger] servers.contains_key(name)) ==> match resolved {
            ResolvedPath::Failed => review::config_review(resolved, servers) == Err::<
                Option<ProjectReview>,
                ProjectRootError,
            >(ProjectRootError::Unresolved),
            ResolvedPath::Found { path, directory } => if directory {
                &&& review::config_review(resolved, servers) matches Ok(Some(found))
                &&& found.project_root == path
                &&& found.fingerprint == fingerprint::hex_digits(
                    fingerprint::sha256(vstd::utf8::encode_utf8(fingerprint::encoding(servers))),
                )
                &&& found.servers == review::server_reviews(servers)
            } else {
                review::config_review(resolved, servers) == Err::<
                    Option<ProjectReview>,
                    ProjectRootError,
                >(ProjectRootError::NotADirectory(path))
            },
        },
{
    if forall|name: Seq<char>| !#[trigger] servers.contains_key(name) {
        assert(servers =~= Map::empty());
    }
    if servers.is_empty() {
        assert forall|name: Seq<char>| !#[trigger] servers.contains_key(name) by {
            assert(!servers.dom().contains(name));
        }
    }
}

/// The root of a project is its canonical path where that is a directory, and there is none
/// otherwise.
pub proof fn law_project_root_is_the_canonical_directory(resolved: ResolvedPath)
    ensures
        paths::project_root(resolved) is Ok <==> resolved is Found && resolved->directory,
        paths::project_root(resolved) is Ok ==> paths::project_root(resolved)->Ok_0
            == resolved->path,
        resolved is Failed ==> paths::project_root(resolved) == Err::<
            std::path::PathBuf,
            ProjectRootError,
        >(ProjectRootError::Unresolved),
        resolved is Found && !resolved->directory ==> paths::project_root(resolved) == Err::<
            std::path::PathBuf,
            ProjectRootError,
        >(ProjectRootError::NotADirectory(resolved->path)),
{
}

/// A review of a project tells of each of its local commands, in full, and of no other server.
pub proof fn law_project_review_tells_local_commands_in_full(
    resolved: ResolvedPath,
    expanded: McpConfig,
    found: ProjectReview,
    name: Seq<char>,
)
    requires
        review::config_review(resolved, config::stdio_only(expanded@)) == Ok::<_, ProjectRootError>(
            Some(found),
        ),
    ensures
        expanded@.contains_key(name) && expanded@[name].stdio <==> exists|i: int|
            0 <= i < found.servers.len() && (#[trigger] found.servers[i]).name == name,
        forall|i: int|
            0 <= i < found.servers.len() && (#[trigger] found.servers[i]).name == name ==> {
                &&& found.servers[i].command == expanded@[name].content.command
                &&& found.servers[i].args == expanded@[name].content.args
                &&& found.servers[i].env == expanded@[name].content.env
            },
{
    let local = config::stdio_only(expanded@);
    law_configurations_are_finite(expanded);
    law_review_tells_servers_in_full(local);
    law_what_reviewing_comes_to(resolved, local);
    assert(found.servers == review::server_reviews(local));
    assert(local.contains_key(name) == (expanded@.contains_key(name) && expanded@[name].stdio));
}

/// Which characters may reach a terminal as they are, by their numbers in Unicode: all but the
/// control codes, the marks that direct the layout of text, the variation selectors, the tags, and
/// what else cannot be seen.
pub proof fn law_unsafe_characters(c: char)
    ensures
        !display::is_safe(c) <==> {
            let number = c as int;
            ||| number <= 0x1f
            ||| 0x7f <= number <= 0x9f
            ||| number == 0xad
            ||| 0x600 <= number <= 0x605
            ||| number == 0x61c
            ||| number == 0x6dd
            ||| number == 0x70f
            ||| number == 0x890
            ||| number == 0x891
            ||| number == 0x8e2
            ||| number == 0x180e
            ||| 0x200b <= number <= 0x200f
            ||| 0x202a <= number <= 0x202e
            ||| 0x2060 <= number <= 0x2064
            ||| 0x2066 <= number <= 0x206f
            ||| 0xfe00 <= number <= 0xfe0f
            ||| number == 0xfeff
            ||| 0xfff9 <= number <= 0xfffb
            ||| number == 0x110bd
            ||| number == 0x110cd
            ||| 0x13430 <= number <= 0x1343f
            ||| 0x1bca0 <= number <= 0x1bca3
            ||| 0x1d173 <= number <= 0x1d17a
            ||| number == 0xe0001
            ||| 0xe0020 <= number <= 0xe007f
            ||| 0xe0100 <= number <= 0xe01ef
        },
        display::is_invisible(c) <==> !display::is_safe(c) && !(c as int <= 0x1f || 0x7f <= c as int
            <= 0x9f),
{
}

/// Safe text is text of safe characters.
pub proof fn law_safe_text_has_safe_characters(value: Seq<char>)
    ensures
        display::all_safe(value) <==> forall|i: int|
            0 <= i < value.len() ==> display::is_safe(#[trigger] value[i]),
        forall|i: int|
            0 <= i < display::safe_text(value).len() ==> display::is_safe(
                #[trigger] display::safe_text(value)[i],
            ),
{
    display::lemma_safe_text_is_safe(value);
}

/// How a single character is shown: as it is where it is safe. Of the others, tab, line feed and
/// carriage return are shown by their letters behind a backslash, and the rest by their numbers in
/// hexadecimal.
pub proof fn law_character_is_shown(c: char)
    ensures
        display::safe_text(seq![]) == Seq::<char>::empty(),
        display::is_safe(c) ==> display::safe_text(seq![c]) == seq![c],
        c as int == 9 ==> display::safe_text(seq![c]) == seq!['\\', 't'],
        c as int == 10 ==> display::safe_text(seq![c]) == seq!['\\', 'n'],
        c as int == 13 ==> display::safe_text(seq![c]) == seq!['\\', 'r'],
        !display::is_safe(c) && c as int != 9 && c as int != 10 && c as int != 13 ==> {
            let shown = display::safe_text(seq![c]);
            &&& shown.len() > 4
            &&& shown.take(3) == seq!['\\', 'u', '{']
            &&& number_read(shown.subrange(3, shown.len() - 1), 16) == c as int
            &&& shown[3] == '0' ==> c as int == 0 && shown.len() == 5
            &&& forall|i: int|
                3 <= i < shown.len() - 1 ==> '0' <= #[trigger] shown[i] <= '9' || 'a' <= shown[i]
                    <= 'f'
            &&& shown.last() == '}'
        },
{
    let one = seq![c];
    assert(one.drop_last() =~= seq![]);
    reveal_with_fuel(display::safe_text, 2);
    assert(display::safe_text(one) =~= display::safe_form(c));
    let shown = display::safe_text(one);
    if !display::is_safe(c) && c as int != 9 && c as int != 10 && c as int != 13 {
        law_hexadecimal_reads_back(c as nat);
        assert(shown.take(3) =~= seq!['\\', 'u', '{']);
        assert(shown.subrange(3, shown.len() - 1) =~= text::hexadecimal(c as nat));
        assert forall|i: int| 3 <= i < shown.len() - 1 implies '0' <= #[trigger] shown[i] <= '9'
            || 'a' <= shown[i] <= 'f' by {
            assert(shown[i] == text::hexadecimal(c as nat)[i - 3]);
        }
        assert(shown[3] == text::hexadecimal(c as nat)[0]);
    }
}

/// Every text of a list is shown in its own place: made safe, and then between quotes.
pub proof fn law_every_text_is_shown_in_its_place(texts: Seq<Seq<char>>, value: Seq<char>)
    ensures
        display::quoted_text(value) == display::debug_form(display::safe_text(value)),
        display::quoted_texts(texts).len() == texts.len(),
        forall|i: int|
            0 <= i < texts.len() ==> #[trigger] display::quoted_texts(texts)[i]
                == display::debug_form(display::safe_text(texts[i])),
{
}

/// A variable is shown with its name, an equals sign and its value.
pub proof fn law_assignment_holds_name_and_value(name: Seq<char>, value: Seq<char>)
    ensures
        display::assignment((name, value)).len() == name.len() + 1 + value.len(),
        display::assignment((name, value)).take(name.len() as int) == name,
        display::assignment((name, value))[name.len() as int] == '=',
        display::assignment((name, value)).skip(name.len() as int + 1) == value,
{
    assert(display::assignment((name, value)).take(name.len() as int) =~= name);
    assert(display::assignment((name, value)).skip(name.len() as int + 1) =~= value);
}

/// The assignments of an environment are its variables with their values, in ascending order of
/// the variables.
pub proof fn law_assignments_are_whole(env: Map<Seq<char>, Seq<char>>)
    requires
        env.dom().finite(),
    ensures
        display::assignments(env).len() == env.dom().len(),
        forall|i: int|
            0 <= i < env.dom().len() ==> {
                &&& env.contains_key(maps::listing(env)[i].0)
                &&& #[trigger] display::assignments(env)[i] == maps::listing(env)[i].0 + seq!['=']
                    + env[maps::listing(env)[i].0]
            },
        forall|key: Seq<char>| #[trigger]
            env.contains_key(key) ==> exists|i: int|
                0 <= i < env.dom().len() && #[trigger] display::assignments(env)[i] == key + seq![
                    '=',
                ] + env[key],
{
    law_listing_is_whole(env);
    let listing = maps::listing(env);
    let shown = display::assignments(env);
    assert forall|i: int| 0 <= i < listing.len() implies #[trigger] shown[i] == listing[i].0 + seq![
        '=',
    ] + listing[i].1 by {}
    assert forall|i: int| 0 <= i < env.dom().len() implies {
        &&& env.contains_key(listing[i].0)
        &&& #[trigger] shown[i] == listing[i].0 + seq!['='] + env[listing[i].0]
    } by {
        assert(env.contains_key(listing[i].0));
    }
    assert forall|key: Seq<char>| #[trigger] env.contains_key(key) implies exists|i: int|
        0 <= i < env.dom().len() && #[trigger] shown[i] == key + seq!['='] + env[key] by {
        let i = choose|i: int| 0 <= i < listing.len() && (#[trigger] listing[i]) == (key, env[key]);
        assert(shown[i] == key + seq!['='] + env[key]);
    }
}

/// Every server is shown with its own texts: its name made safe, its command, each of its
/// arguments and each of its redacted assignments made safe and between quotes, in their order.
pub proof fn law_servers_are_shown_with_their_own_texts(
    servers: Seq<ServerReview>,
    redacted: Seq<Seq<Seq<char>>>,
)
    ensures
        display::all_texts(servers, redacted).len() == servers.len(),
        forall|i: int|
            0 <= i < servers.len() ==> {
                &&& (#[trigger] display::all_texts(servers, redacted)[i]).name == display::safe_text(
                    servers[i].name,
                )
                &&& display::all_texts(servers, redacted)[i].command == display::debug_form(
                    display::safe_text(servers[i].command),
                )
                &&& display::all_texts(servers, redacted)[i].args.len() == servers[i].args.len()
                &&& display::all_texts(servers, redacted)[i].environment.len() == redacted[i].len()
            },
        forall|i: int, j: int|
            0 <= i < servers.len() && 0 <= j < servers[i].args.len()
                ==> #[trigger] display::all_texts(servers, redacted)[i].args[j]
                == display::debug_form(display::safe_text(servers[i].args[j])),
        forall|i: int, j: int|
            0 <= i < servers.len() && 0 <= j < redacted[i].len() ==> #[trigger] display::all_texts(
                servers,
                redacted,
            )[i].environment[j] == display::debug_form(display::safe_text(redacted[i][j])),
{
}

/// The texts of a single server are those that it is shown with among others.
pub proof fn law_server_is_shown_alone_as_among_others(
    server: ServerReview,
    redacted: Seq<Seq<char>>,
)
    ensures
        display::server_texts(server, redacted) == display::all_texts(
            seq![server],
            seq![redacted],
        )[0],
{
}

/// What is shown without any server: an empty line, the number of servers, the project, a warning
/// where something is hidden, and that nothing was started.
pub proof fn law_review_of_no_servers_is_shown(project: Seq<char>, hidden: bool)
    ensures
        display::review_lines(seq![], project, hidden) == seq![
            seq![],
            "This project defines 0 MCP server(s) that can run local commands:"@,
            "Project: "@ + project,
        ] + (if hidden {
            seq!["Some environment values are redacted and may affect execution."@]
        } else {
            seq![]
        }) + seq!["Jcode has not started these project-local servers."@],
{
    reveal_strlit("This project defines 0 MCP server(s) that can run local commands:");
    reveal_strlit("This project defines ");
    reveal_strlit(" MCP server(s) that can run local commands:");
    assert("This project defines "@ + text::decimal(0)
        + " MCP server(s) that can run local commands:"@
        =~= "This project defines 0 MCP server(s) that can run local commands:"@);
    assert(display::review_lines(seq![], project, hidden) =~= seq![
        seq![],
        "This project defines 0 MCP server(s) that can run local commands:"@,
        "Project: "@ + project,
    ] + (if hidden {
        seq!["Some environment values are redacted and may affect execution."@]
    } else {
        seq![]
    }) + seq!["Jcode has not started these project-local servers."@]);
}

/// What is shown of one more server: the lines of the others stay as they are, but for the number
/// of servers. Behind the others stand its name, its command, each argument on a line of its own
/// below a heading, and each assignment on a line of its own below another; a heading with
/// nothing below it is left out.
pub proof fn law_further_server_is_shown_behind_the_others(
    servers: Seq<ServerTexts>,
    server: ServerTexts,
    project: Seq<char>,
    hidden: bool,
)
    ensures
        ({
            let above = display::review_lines(servers, project, hidden);
            let tail = above.len() - (if hidden {
                3int
            } else {
                2int
            });
            &&& tail >= 2
            &&& display::review_lines(servers.push(server), project, hidden) == seq![
                above[0],
                "This project defines "@ + text::decimal(servers.len() + 1)
                    + " MCP server(s) that can run local commands:"@,
            ] + above.subrange(2, tail) + seq![
                "  - "@ + server.name,
                "    command: "@ + server.command,
            ] + (if server.args.len() == 0 {
                seq![]
            } else {
                seq!["    arguments:"@] + Seq::new(
                    server.args.len(),
                    |i: int| "      - "@ + server.args[i],
                )
            }) + (if server.environment.len() == 0 {
                seq![]
            } else {
                seq!["    environment:"@] + Seq::new(
                    server.environment.len(),
                    |i: int| "      - "@ + server.environment[i],
                )
            }) + above.skip(tail)
        }),
{
    let above = display::review_lines(servers, project, hidden);
    let more = servers.push(server);
    let tail = above.len() - (if hidden {
        3int
    } else {
        2int
    });
    let arguments = if server.args.len() == 0 {
        seq![]
    } else {
        seq!["    arguments:"@] + Seq::new(
            server.args.len(),
            |i: int| "      - "@ + server.args[i],
        )
    };
    let environment = if server.environment.len() == 0 {
        seq![]
    } else {
        seq!["    environment:"@] + Seq::new(
            server.environment.len(),
            |i: int| "      - "@ + server.environment[i],
        )
    };
    assert(more.drop_last() =~= servers);
    assert(above.subrange(2, tail) =~= display::servers_lines(servers));
    assert(display::section("    arguments:"@, server.args) =~= arguments);
    assert(display::section("    environment:"@, server.environment) =~= environment);
    assert(display::server_lines(server) =~= seq![
        "  - "@ + server.name,
        "    command: "@ + server.command,
    ] + arguments + environment);
    assert(display::servers_lines(more) =~= display::servers_lines(servers) + display::server_lines(
        server,
    ));
    assert(display::review_lines(more, project, hidden) =~= seq![
        above[0],
        "This project defines "@ + text::decimal(servers.len() + 1)
            + " MCP server(s) that can run local commands:"@,
    ] + above.subrange(2, tail) + seq![
        "  - "@ + server.name,
        "    command: "@ + server.command,
    ] + arguments + environment + above.skip(tail));
}

/// Where the texts of a server stand among the lines: behind the two lines at the top and the
/// lines of the servers before it come its name and its command. Below them each argument has the
/// line of its own place, and below those each assignment has.
pub proof fn law_every_text_has_its_line(
    servers: Seq<ServerTexts>,
    project: Seq<char>,
    hidden: bool,
    k: int,
)
    requires
        0 <= k < servers.len(),
    ensures
        ({
            let lines = display::review_lines(servers, project, hidden);
            let at = 2 + laws::servers_size(servers.take(k)) as int;
            let arguments = at + 2;
            let environment = arguments + (if servers[k].args.len() == 0 {
                0nat
            } else {
                1 + servers[k].args.len()
            });
            &&& lines[at] == "  - "@ + servers[k].name
            &&& lines[at + 1] == "    command: "@ + servers[k].command
            &&& servers[k].args.len() > 0 ==> lines[arguments] == "    arguments:"@
            &&& forall|j: int|
                0 <= j < servers[k].args.len() ==> lines[arguments + 1 + j] == "      - "@
                    + #[trigger] servers[k].args[j]
            &&& servers[k].environment.len() > 0 ==> lines[environment] == "    environment:"@
            &&& forall|j: int|
                0 <= j < servers[k].environment.len() ==> lines[environment + 1 + j] == "      - "@
                    + #[trigger] servers[k].environment[j]
        }),
{
    let lines = display::review_lines(servers, project, hidden);
    let shown = display::servers_lines(servers);
    let server = servers[k];
    let own = display::server_lines(server);
    let before = laws::servers_size(servers.take(k)) as int;
    lemma_server_block(servers, k);
    assert forall|i: int| 0 <= i < own.len() implies #[trigger] lines[2 + before + i] == own[i] by {
        assert(lines[2 + before + i] == shown[before + i]);
        assert(shown.subrange(before, before + own.len())[i] == shown[before + i]);
    }
    assert(lines[2 + before + 0] == own[0]);
    assert(lines[2 + before + 1] == own[1]);
    let size = display::section("    arguments:"@, server.args).len() as int;
    assert forall|j: int| 0 <= j < server.args.len() implies lines[2 + before + 2 + 1 + j]
        == "      - "@ + #[trigger] server.args[j] by {
        assert(lines[2 + before + (3 + j)] == own[3 + j]);
    }
    if server.args.len() > 0 {
        assert(lines[2 + before + 2] == own[2]);
    }
    assert forall|j: int| 0 <= j < server.environment.len() implies lines[2 + before + 2 + size + 1
        + j] == "      - "@ + #[trigger] server.environment[j] by {
        assert(lines[2 + before + (3 + size + j)] == own[3 + size + j]);
    }
    if server.environment.len() > 0 {
        assert(lines[2 + before + (2 + size)] == own[2 + size]);
    }
}

proof fn lemma_server_block(servers: Seq<ServerTexts>, k: int)
    requires
        0 <= k < servers.len(),
    ensures
        ({
            let before = laws::servers_size(servers.take(k)) as int;
            let own = display::server_lines(servers[k]);
            &&& before + own.len() <= display::servers_lines(servers).len()
            &&& display::servers_lines(servers).subrange(before, before + own.len()) == own
        }),
    decreases servers.len(),
{
    let fewer = servers.drop_last();
    let before = laws::servers_size(servers.take(k)) as int;
    let own = display::server_lines(servers[k]);
    if k < fewer.len() {
        lemma_server_block(fewer, k);
        assert(fewer.take(k) =~= servers.take(k));
        assert(display::servers_lines(servers).subrange(before, before + own.len())
            =~= display::servers_lines(fewer).subrange(before, before + own.len()));
    } else {
        assert(servers.take(k) =~= fewer);
        laws::law_texts_add_no_lines(fewer, seq![], false);
        assert(display::servers_lines(servers).subrange(before, before + own.len()) =~= own);
    }
}

/// A fingerprint is 64 lowercase hexadecimal digits.
pub proof fn law_shape_of_a_fingerprint(value: Seq<char>)
    ensures
        fingerprint::is_fingerprint(value) <==> value.len() == 64 && forall|i: int|
            0 <= i < value.len() ==> {
                ||| '0' <= #[trigger] value[i] <= '9'
                ||| 'a' <= value[i] <= 'f'
            },
{
}

/// Something counts as hidden where the redacted texts of some server are not exactly the
/// assignments of its environment: another number of them, or another text in some place.
pub proof fn law_hidden_means_some_assignment_is_not_shown(
    servers: Seq<ServerReview>,
    redacted: Seq<Seq<Seq<char>>>,
)
    ensures
        !display::any_hidden(servers, redacted) <==> forall|i: int|
            0 <= i < servers.len() ==> {
                &&& (#[trigger] redacted[i]).len() == display::assignments(servers[i].env).len()
                &&& forall|j: int|
                    0 <= j < redacted[i].len() ==> #[trigger] redacted[i][j]
                        == display::assignments(servers[i].env)[j]
            },
        forall|i: int|
            0 <= i < servers.len() && #[trigger] display::hides(servers[i], redacted[i])
                ==> display::any_hidden(servers, redacted),
{
    if display::any_hidden(servers, redacted) {
        let i = choose|i: int|
            0 <= i < servers.len() && display::hides(#[trigger] servers[i], redacted[i]);
        let plain = display::assignments(servers[i].env);
        if redacted[i].len() == plain.len() && forall|j: int|
            0 <= j < redacted[i].len() ==> #[trigger] redacted[i][j] == plain[j] {
            assert(redacted[i] =~= plain);
        }
    } else {
        assert forall|i: int| 0 <= i < servers.len() implies #[trigger] redacted[i]
            == display::assignments(servers[i].env) by {
            assert(!display::hides(servers[i], redacted[i]));
        }
    }
}

/// Whether the texts of one server are hidden is told as among others.
pub proof fn law_hidden_alone_as_among_others(server: ServerReview, redacted: Seq<Seq<char>>)
    ensures
        display::hides(server, redacted) <==> display::any_hidden(seq![server], seq![redacted]),
{
    assert(seq![server][0] == server && seq![redacted][0] == redacted);
}

/// Whether a character is white space, by its number in Unicode.
pub open spec fn is_blank(c: char) -> bool {
    let number = c as int;
    ||| 9 <= number <= 13
    ||| number == 32
    ||| number == 0x85
    ||| number == 0xa0
    ||| number == 0x1680
    ||| 0x2000 <= number <= 0x200a
    ||| number == 0x2028
    ||| number == 0x2029
    ||| number == 0x202f
    ||| number == 0x205f
    ||| number == 0x3000
}

proof fn lemma_leading_space(value: Seq<char>) -> (start: int)
    ensures
        0 <= start <= value.len(),
        forall|i: int| 0 <= i < start ==> is_blank(#[trigger] value[i]),
        start < value.len() ==> !is_blank(value[start]),
        command::without_leading_space(value) == value.skip(start),
    decreases value.len(),
{
    if value.len() > 0 && is_blank(value[0]) {
        let rest = value.drop_first();
        let start = lemma_leading_space(rest);
        assert(rest.skip(start) =~= value.skip(start + 1));
        assert forall|i: int| 0 <= i < start + 1 implies is_blank(#[trigger] value[i]) by {
            if i > 0 {
                assert(is_blank(rest[i - 1]));
            }
        }
        start + 1
    } else {
        assert(value.skip(0) =~= value);
        0
    }
}

proof fn lemma_trailing_space(value: Seq<char>) -> (end: int)
    ensures
        0 <= end <= value.len(),
        forall|i: int| end <= i < value.len() ==> is_blank(#[trigger] value[i]),
        end > 0 ==> !is_blank(value[end - 1]),
        command::without_trailing_space(value) == value.take(end),
    decreases value.len(),
{
    if value.len() > 0 && is_blank(value.last()) {
        let rest = value.drop_last();
        let end = lemma_trailing_space(rest);
        assert(rest.take(end) =~= value.take(end));
        assert forall|i: int| end <= i < value.len() implies is_blank(#[trigger] value[i]) by {
            if i < rest.len() {
                assert(is_blank(rest[i]));
            }
        }
        end
    } else {
        assert(value.take(value.len() as int) =~= value);
        value.len() as int
    }
}

/// An answer approves if and only if it is white space, then `y` or `yes` with each letter in
/// either case, then white space.
pub proof fn law_only_yes_approves(input: Seq<char>)
    ensures
        command::approves(input) <==> exists|start: int, end: int|
            {
                &&& 0 <= start <= end <= input.len()
                &&& forall|i: int| 0 <= i < start ==> is_blank(#[trigger] input[i])
                &&& forall|i: int| end <= i < input.len() ==> is_blank(#[trigger] input[i])
                &&& is_yes(#[trigger] input.subrange(start, end))
            },
{
    reveal_strlit("y");
    reveal_strlit("yes");
    let first = lemma_leading_space(input);
    let body = input.skip(first);
    let last = lemma_trailing_space(body);
    let core = body.take(last);
    assert(core =~= input.subrange(first, first + last));
    assert(command::trimmed(input) == core);
    let lower = command::lowered(core);
    assert(lower.len() == core.len());
    assert forall|i: int| 0 <= i < core.len() implies #[trigger] lower[i] == command::ascii_lower(
        core[i],
    ) by {}
    if command::approves(input) {
        if lower == "y"@ {
            assert(lower[0] == 'y');
        } else {
            assert(lower[0] == 'y' && lower[1] == 'e' && lower[2] == 's');
        }
        assert(is_yes(input.subrange(first, first + last)));
        assert forall|i: int| first + last <= i < input.len() implies is_blank(
            #[trigger] input[i],
        ) by {
            assert(is_blank(body[i - first]));
        }
    }
    if exists|start: int, end: int|
        {
            &&& 0 <= start <= end <= input.len()
            &&& forall|i: int| 0 <= i < start ==> is_blank(#[trigger] input[i])
            &&& forall|i: int| end <= i < input.len() ==> is_blank(#[trigger] input[i])
            &&& is_yes(#[trigger] input.subrange(start, end))
        } {
        let (start, end) = choose|start: int, end: int|
            {
                &&& 0 <= start <= end <= input.len()
                &&& forall|i: int| 0 <= i < start ==> is_blank(#[trigger] input[i])
                &&& forall|i: int| end <= i < input.len() ==> is_blank(#[trigger] input[i])
                &&& is_yes(#[trigger] input.subrange(start, end))
            };
        let word = input.subrange(start, end);
        assert(word[0] == input[start] && !is_blank(input[start]));
        assert(word[word.len() - 1] == input[end - 1] && !is_blank(input[end - 1]));
        assert(first == start);
        assert(body[end - 1 - start] == input[end - 1]);
        assert(last >= end - start);
        if last > end - start {
            assert(body[last - 1] == input[start + last - 1]);
        }
        assert(core =~= word);
        if word.len() == 1 {
            assert(lower =~= "y"@);
        } else {
            assert(lower =~= "yes"@);
        }
    }
}

/// Whether a word is `y` or `yes`, with each letter in either case.
pub open spec fn is_yes(word: Seq<char>) -> bool {
    ||| word.len() == 1 && (word[0] == 'y' || word[0] == 'Y')
    ||| {
        &&& word.len() == 3
        &&& word[0] == 'y' || word[0] == 'Y'
        &&& word[1] == 'e' || word[1] == 'E'
        &&& word[2] == 's' || word[2] == 'S'
    }
}

/// An answer whose first character that is no white space is another than `y` declines, and so
/// does one of white space alone.
pub proof fn law_other_answers_decline(input: Seq<char>, first: int)
    requires
        0 <= first <= input.len(),
        forall|i: int| 0 <= i < first ==> is_blank(#[trigger] input[i]),
        first < input.len() ==> !is_blank(input[first]) && input[first] != 'y' && input[first]
            != 'Y',
    ensures
        !command::approves(input),
{
    law_only_yes_approves(input);
    if command::approves(input) {
        let (start, end) = choose|start: int, end: int|
            {
                &&& 0 <= start <= end <= input.len()
                &&& forall|i: int| 0 <= i < start ==> is_blank(#[trigger] input[i])
                &&& forall|i: int| end <= i < input.len() ==> is_blank(#[trigger] input[i])
                &&& is_yes(#[trigger] input.subrange(start, end))
            };
        assert(input.subrange(start, end)[0] == input[start]);
    }
}

/// An answer that approves is at most the three letters of `yes` with white space around them: a
/// longer word, or a second one, declines.
pub proof fn law_longer_answers_decline(input: Seq<char>, i: int, j: int)
    requires
        0 <= i < j < input.len(),
        j - i > 2,
        !is_blank(input[i]),
        !is_blank(input[j]),
    ensures
        !command::approves(input),
{
    law_only_yes_approves(input);
}

/// White space is white space by its number in Unicode.
pub proof fn law_white_space(c: char)
    ensures
        command::is_white_space(c) <==> is_blank(c),
{
}

/// Where the command is after which events, and with which number of servers. It starts with the
/// review. A project without local commands, or with approved ones, ends it. Otherwise the review
/// is shown, but only after the user turned out to be there to be asked or approved beforehand.
/// It goes on to the question only where nothing was hidden, and to saving only with approval.
pub proof fn law_course_of_the_command(yes: bool, events: Seq<TrustEvent>, servers: usize)
    ensures
        laws::run(yes, seq![]) == Some(TrustCommand::Reviewing { yes }),
        laws::run(yes, events) == Some(TrustCommand::CheckingTrust { yes, servers }) <==> {
            &&& events.len() == 1
            &&& events[0] == TrustEvent::Reviewed(Some(servers))
        },
        laws::run(yes, events) == Some(TrustCommand::ProbingTerminal { servers }) <==> {
            &&& !yes
            &&& events.len() == 2
            &&& events[0] == TrustEvent::Reviewed(Some(servers))
            &&& events[1] == TrustEvent::TrustChecked(false)
        },
        laws::run(yes, events) == Some(TrustCommand::Showing { yes: true, servers }) <==> {
            &&& yes
            &&& events.len() == 2
            &&& events[0] == TrustEvent::Reviewed(Some(servers))
            &&& events[1] == TrustEvent::TrustChecked(false)
        },
        laws::run(yes, events) == Some(TrustCommand::Showing { yes: false, servers }) <==> {
            &&& !yes
            &&& events.len() == 3
            &&& events[0] == TrustEvent::Reviewed(Some(servers))
            &&& events[1] == TrustEvent::TrustChecked(false)
            &&& events[2] == TrustEvent::TerminalProbed(true)
        },
        laws::run(yes, events) == Some(TrustCommand::Asking { servers }) <==> {
            &&& !yes
            &&& events.len() == 4
            &&& events[0] == TrustEvent::Reviewed(Some(servers))
            &&& events[1] == TrustEvent::TrustChecked(false)
            &&& events[2] == TrustEvent::TerminalProbed(true)
            &&& events[3] == TrustEvent::Shown { hidden: false }
        },
        laws::run(yes, events) == Some(TrustCommand::Saving { servers }) <==> {
            ||| {
                &&& yes
                &&& events.len() == 3
                &&& events[0] == TrustEvent::Reviewed(Some(servers))
                &&& events[1] == TrustEvent::TrustChecked(false)
                &&& events[2] is Shown
            }
            ||| {
                &&& !yes
                &&& events.len() == 5
                &&& events[0] == TrustEvent::Reviewed(Some(servers))
                &&& events[1] == TrustEvent::TrustChecked(false)
                &&& events[2] == TrustEvent::TerminalProbed(true)
                &&& events[3] == TrustEvent::Shown { hidden: false }
                &&& events[4] == TrustEvent::Answered(true)
            }
        },
{
    reveal_with_fuel(laws::run, 7);
}

/// How the command ends, and after which events. It reports that it trusts a number of servers if
/// and only if the approval of that number of servers was being saved and has been. It reports
/// that the configuration remains blocked if and only if the user saw all of it and declined.
pub proof fn law_ends_of_the_command(yes: bool, events: Seq<TrustEvent>, servers: usize)
    ensures
        laws::run(yes, events) == Some(TrustCommand::Done(TrustReport::NothingToTrust)) <==> {
            &&& events.len() == 1
            &&& events[0] == TrustEvent::Reviewed(None)
        },
        laws::run(yes, events) == Some(TrustCommand::Done(TrustReport::AlreadyTrusted)) <==> {
            &&& events.len() == 2
            &&& events[0] matches TrustEvent::Reviewed(found)
            &&& found is Some
            &&& events[1] == TrustEvent::TrustChecked(true)
        },
        laws::run(yes, events) == Some(TrustCommand::Done(TrustReport::Trusted { servers })) <==> {
            &&& events.len() > 0
            &&& events.last() == TrustEvent::Saved
            &&& laws::run(yes, events.drop_last()) == Some(TrustCommand::Saving { servers })
        },
        laws::run(yes, events) == Some(TrustCommand::Done(TrustReport::RemainsBlocked)) <==> {
            &&& !yes
            &&& events.len() == 5
            &&& events[0] matches TrustEvent::Reviewed(found)
            &&& found is Some
            &&& events[1] == TrustEvent::TrustChecked(false)
            &&& events[2] == TrustEvent::TerminalProbed(true)
            &&& events[3] == TrustEvent::Shown { hidden: false }
            &&& events[4] == TrustEvent::Answered(false)
        },
        laws::run(yes, events) == Some(TrustCommand::Refused(TrustRefusal::ConfirmationRequired))
            <==> {
            &&& !yes
            &&& events.len() == 3
            &&& events[0] matches TrustEvent::Reviewed(found)
            &&& found is Some
            &&& events[1] == TrustEvent::TrustChecked(false)
            &&& events[2] == TrustEvent::TerminalProbed(false)
        },
        laws::run(yes, events) == Some(TrustCommand::Refused(TrustRefusal::ValuesRedacted)) <==> {
            &&& !yes
            &&& events.len() == 4
            &&& events[0] matches TrustEvent::Reviewed(found)
            &&& found is Some
            &&& events[1] == TrustEvent::TrustChecked(false)
            &&& events[2] == TrustEvent::TerminalProbed(true)
            &&& events[3] == TrustEvent::Shown { hidden: true }
        },
{
    reveal_with_fuel(laws::run, 7);
}

/// The command goes from event to event as it turns on each of them, and an event that it does
/// not wait for leads nowhere.
pub proof fn law_command_goes_from_event_to_event(
    yes: bool,
    events: Seq<TrustEvent>,
    event: TrustEvent,
)
    ensures
        laws::run(yes, events) matches Some(reached) ==> laws::run(yes, events.push(event))
            == command::turns_to(reached, event),
        laws::run(yes, events) is None ==> laws::run(yes, events.push(event)) is None,
        laws::run(yes, events) matches Some(TrustCommand::Done(_)) ==> laws::run(
            yes,
            events.push(event),
        ) is None,
        laws::run(yes, events) matches Some(TrustCommand::Refused(_)) ==> laws::run(
            yes,
            events.push(event),
        ) is None,
{
    assert(events.push(event).drop_last() =~= events);
}

/// What the command says at each of its ends, whatever the number of servers.
pub proof fn law_what_the_command_says(servers: usize)
    ensures
        command::report_text(TrustReport::NothingToTrust)
            == "No project-local MCP command servers were found."@,
        command::report_text(TrustReport::AlreadyTrusted)
            == "This exact executable project MCP configuration is already trusted."@,
        command::report_text(TrustReport::Trusted { servers }) == "Trusted "@ + text::decimal(
            servers as nat,
        )
            + " project MCP server(s). Executable configuration or referenced-environment changes require approval again."@,
        command::report_text(TrustReport::RemainsBlocked)
            == "Project MCP configuration remains blocked."@,
        command::refusal_text(TrustRefusal::ValuesRedacted)
            == "approval is disabled because environment values were redacted; review the project MCP files and referenced environment values, then rerun with --yes"@,
        command::refusal_text(TrustRefusal::ConfirmationRequired)
            == "project MCP trust requires confirmation; rerun in an interactive terminal or pass --yes after reviewing the project MCP files"@,
{
}

/// A fingerprint is approved under a key if and only if the key is there with that fingerprint.
pub proof fn law_approved_means_filed(
    projects: Map<Seq<char>, Seq<char>>,
    key: Seq<char>,
    fingerprint: Seq<char>,
)
    ensures
        store::is_approved(projects, key, fingerprint) <==> projects.dom().contains(key)
            && projects[key] == fingerprint,
{
}

/// What a stored file gives: its approvals, without a warning, where it was read and has version
/// one; nothing, and a warning with its version, where it has another; nothing, and a warning,
/// where it cannot be read; nothing, and no warning, where it is not there.
pub proof fn law_what_a_stored_file_gives(stored: StoredTrust)
    ensures
        match stored {
            StoredTrust::Missing => {
                &&& store::approvals(stored) == Map::<Seq<char>, Seq<char>>::empty()
                &&& store::warning_for(stored) is None
            },
            StoredTrust::Unreadable => {
                &&& store::approvals(stored) == Map::<Seq<char>, Seq<char>>::empty()
                &&& store::warning_for(stored) == Some(StoreWarning::Unreadable)
            },
            StoredTrust::Read(found) => if found.version == 1 {
                &&& store::approvals(stored) == found.projects@
                &&& store::warning_for(stored) is None
            } else {
                &&& store::approvals(stored) == Map::<Seq<char>, Seq<char>>::empty()
                &&& store::warning_for(stored) == Some(
                    StoreWarning::UnsupportedVersion(found.version),
                )
            },
        },
{
}

/// The trust store has version one and its file the same name everywhere.
pub proof fn law_trust_store_is_kept_in_one_form()
    ensures
        store::TRUST_STORE_VERSION == 1,
        store::TRUST_STORE_FILE@ == "mcp-project-trust.json"@,
{
}

/// What is said of a file that was not used and of a project without a root, whatever the version,
/// the path and the error are.
pub proof fn law_what_is_said_of_errors(
    version: u32,
    path: Seq<char>,
    error: Seq<char>,
    root: std::path::PathBuf,
)
    ensures
        store::warning_text(StoreWarning::UnsupportedVersion(version), path, error)
            == "MCP trust store version "@ + text::decimal(version as nat)
            + " is unsupported; project-local MCP remains blocked"@,
        store::warning_text(StoreWarning::Unreadable, path, error)
            == "Failed to read MCP trust store "@ + path + "; project-local MCP remains blocked: "@
            + error,
        paths::root_error_text(ProjectRootError::Unresolved, path)
            == "failed to resolve project directory "@ + path,
        paths::root_error_text(ProjectRootError::NotADirectory(root), path)
            == "project path is not a directory: "@ + path,
{
}

} // verus!
