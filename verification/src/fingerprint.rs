//! The fingerprint of a configuration: the SHA-256 digest of its servers, written as JSON in a
//! fixed order.
use crate::config;
use crate::config::{stable_map, McpConfig, McpServerConfig, ServerContent, ServerView};
use crate::json;
use crate::json::{flag_json, list_json, null_json, number_json, object_json, text_json, Json};
use crate::maps;
use crate::maps::OrderedMap;
use crate::text;
use sha2::Digest;
use vstd::prelude::*;

verus! {

/// An optional text as JSON.
pub open spec fn text_value(value: Option<Seq<char>>) -> Json {
    match value {
        Some(value) => Json::Text(value),
        None => Json::Null,
    }
}

/// An optional flag as JSON.
pub open spec fn flag_value(value: Option<bool>) -> Json {
    match value {
        Some(value) => Json::Flag(value),
        None => Json::Null,
    }
}

/// An optional number as JSON.
pub open spec fn number_value(value: Option<u64>) -> Json {
    match value {
        Some(value) => Json::Number(value as nat),
        None => Json::Null,
    }
}

/// Turns the value of an entry into a JSON string.
pub open spec fn as_text() -> spec_fn(Seq<char>, Seq<char>) -> Json {
    |key: Seq<char>, value: Seq<char>| Json::Text(value)
}

/// A map of texts as a JSON object, in ascending order of its keys.
pub open spec fn map_value(map: Map<Seq<char>, Seq<char>>) -> Json {
    Json::Object(maps::changed_pairs(maps::listing(map), as_text()))
}

/// The members of the JSON object that stands for a server.
pub open spec fn server_members(server: ServerContent) -> Seq<(Seq<char>, Json)> {
    seq![
        ("command"@, Json::Text(server.command)),
        ("args"@, json::text_list(server.args)),
        ("env"@, map_value(server.env)),
        ("shared"@, Json::Flag(server.shared)),
        ("transport"@, text_value(server.transport)),
        ("url"@, text_value(server.url)),
        ("headers"@, map_value(server.headers)),
        ("enabled"@, flag_value(server.enabled)),
        ("disabled"@, flag_value(server.disabled)),
        ("timeout_secs"@, number_value(server.timeout_secs)),
    ]
}

/// Turns the value of an entry into the JSON object of the server.
pub open spec fn as_server() -> spec_fn(Seq<char>, ServerContent) -> Json {
    |name: Seq<char>, server: ServerContent| Json::Object(server_members(server))
}

/// Keeps of the value of an entry what a trust decision covers.
pub open spec fn as_content() -> spec_fn(Seq<char>, ServerView) -> ServerContent {
    |name: Seq<char>, server: ServerView| server.content
}

/// What a trust decision covers of the servers of a configuration.
pub open spec fn contents(servers: Map<Seq<char>, ServerView>) -> Map<Seq<char>, ServerContent> {
    maps::changed(servers, as_content())
}

/// The JSON document of a configuration: its servers in ascending order of their names.
pub open spec fn document(servers: Map<Seq<char>, ServerContent>) -> Json {
    Json::Object(maps::changed_pairs(maps::listing(servers), as_server()))
}

/// What the fingerprint of a configuration is taken of.
pub open spec fn encoding(servers: Map<Seq<char>, ServerView>) -> Seq<char> {
    json::render(document(contents(servers)))
}

fn optional_text_json(value: &Option<String>) -> (json: String)
    ensures
        json@ == json::render(text_value(config::optional_text(*value))),
{
    match value {
        Some(value) => text_json(value.as_str()),
        None => null_json(),
    }
}

fn optional_flag_json(value: Option<bool>) -> (json: String)
    ensures
        json@ == json::render(flag_value(value)),
{
    match value {
        Some(value) => flag_json(value),
        None => null_json(),
    }
}

fn optional_number_json(value: Option<u64>) -> (json: String)
    ensures
        json@ == json::render(number_value(value)),
{
    match value {
        Some(value) => number_json(value),
        None => null_json(),
    }
}

/// Writes a map of texts as a JSON object, in ascending order of its keys.
pub fn map_json(map: &OrderedMap<String>) -> (json: String)
    ensures
        json@ == json::render(map_value(map@)),
{
    let ghost pairs = maps::listing(map@);
    let mut members: Vec<(String, String)> = Vec::new();
    let count = map.len();
    let mut i: usize = 0;
    while i < count
        invariant
            i <= count,
            count == pairs.len(),
            pairs == maps::listing(map@),
            members.len() == i,
            forall|j: int|
                0 <= j < i ==> json::text_pair(#[trigger] members[j]) == (
                    pairs[j].0,
                    json::render(Json::Text(pairs[j].1)),
                ),
        decreases count - i,
    {
        members.push((map.key_at(i).clone(), text_json(map.value_at(i).as_str())));
        i += 1;
    }
    let json = object_json(&members);
    proof {
        json::lemma_framed_object(
            maps::changed_pairs(pairs, as_text()),
            members@.map_values(|member: (String, String)| json::text_pair(member)),
        );
    }
    json
}

/// Writes a server as a JSON object.
pub fn server_json(server: &McpServerConfig) -> (json: String)
    ensures
        json@ == json::render(Json::Object(server_members(server@.content))),
{
    let mut members: Vec<(String, String)> = Vec::new();
    members.push(("command".to_owned(), text_json(server.command.as_str())));
    members.push(("args".to_owned(), list_json(&server.args)));
    members.push(("env".to_owned(), map_json(&stable_map(&server.env))));
    members.push(("shared".to_owned(), flag_json(server.shared)));
    members.push(("transport".to_owned(), optional_text_json(&server.transport)));
    members.push(("url".to_owned(), optional_text_json(&server.url)));
    members.push(("headers".to_owned(), map_json(&stable_map(&server.headers))));
    members.push(("enabled".to_owned(), optional_flag_json(server.enabled)));
    members.push(("disabled".to_owned(), optional_flag_json(server.disabled)));
    members.push(("timeout_secs".to_owned(), optional_number_json(server.timeout_secs)));
    let json = object_json(&members);
    proof {
        json::lemma_framed_object(
            server_members(server@.content),
            members@.map_values(|member: (String, String)| json::text_pair(member)),
        );
    }
    json
}

/// Turns the value of an entry into the written JSON object of the server.
spec fn as_written() -> spec_fn(Seq<char>, ServerView) -> Seq<char> {
    |name: Seq<char>, server: ServerView| json::render(Json::Object(server_members(server.content)))
}

/// Writes the servers of a configuration as a JSON object, in ascending order of their names.
pub fn encode_config(config: &McpConfig) -> (json: String)
    ensures
        json@ == encoding(config@),
{
    let ghost pairs = config.servers.pairs();
    let mut written: OrderedMap<String> = OrderedMap::new();
    let count = config.servers.len();
    let mut i: usize = 0;
    assert(maps::changed_pairs(pairs.take(0), as_written()) =~= seq![]);
    while i < count
        invariant
            i <= count,
            count == pairs.len(),
            pairs == config.servers.pairs(),
            written@ == maps::collected(maps::changed_pairs(pairs.take(i as int), as_written())),
        decreases count - i,
    {
        let json = server_json(config.servers.value_at(i));
        written.insert(config.servers.key_at(i).clone(), json);
        assert(maps::changed_pairs(pairs.take(i + 1), as_written()).drop_last()
            =~= maps::changed_pairs(pairs.take(i as int), as_written()));
        i += 1;
    }
    let ghost listed = maps::listing(contents(config@));
    proof {
        assert(pairs.take(count as int) =~= pairs);
        maps::lemma_changed_collected(pairs, as_written());
        maps::lemma_changed_collected(pairs, as_content());
        maps::lemma_listed(maps::changed_pairs(pairs, as_content()));
        let render_server = |name: Seq<char>, server: ServerContent|
            json::render(Json::Object(server_members(server)));
        maps::lemma_changed_listing(contents(config@), render_server);
        assert(written@ =~= maps::changed(contents(config@), render_server));
        assert(maps::listing(written@) == maps::changed_pairs(listed, render_server));
    }
    let mut members: Vec<(String, String)> = Vec::new();
    let count = written.len();
    let mut i: usize = 0;
    while i < count
        invariant
            i <= count,
            count == maps::listing(written@).len(),
            members.len() == i,
            forall|j: int|
                0 <= j < i ==> json::text_pair(#[trigger] members[j]) == maps::listing(
                    written@,
                )[j],
        decreases count - i,
    {
        members.push((written.key_at(i).clone(), written.value_at(i).clone()));
        i += 1;
    }
    let json = object_json(&members);
    proof {
        json::lemma_framed_object(
            maps::changed_pairs(listed, as_server()),
            members@.map_values(|member: (String, String)| json::text_pair(member)),
        );
    }
    json
}

/// The SHA-256 digest of `data`.
pub uninterp spec fn sha256(data: Seq<u8>) -> Seq<u8>;

/// Calls `sha2::Sha256::digest`. The digest has 32 bytes and depends on the data alone; that no two
/// data have the same digest is not so, and is not claimed.
#[verifier::external_body]
fn sha256_digest(data: &[u8]) -> (digest: [u8; 32])
    ensures
        digest@ == sha256(data@),
{
    sha2::Sha256::digest(data).into()
}

/// Bytes in hexadecimal: two lowercase digits for each byte, the higher one first.
pub open spec fn hex_digits(bytes: Seq<u8>) -> Seq<char> {
    Seq::new(
        2 * bytes.len(),
        |i: int|
            if i % 2 == 0 {
                text::hex_digit(bytes[i / 2] as nat / 16)
            } else {
                text::hex_digit(bytes[i / 2] as nat % 16)
            },
    )
}

/// Calls `hex::encode`, which writes each byte as two lowercase hexadecimal digits.
#[verifier::external_body]
fn hex_encode(bytes: &[u8; 32]) -> (digits: String)
    ensures
        digits@ == hex_digits(bytes@),
{
    hex::encode(bytes)
}

/// Whether a text has the shape of a fingerprint: 64 lowercase hexadecimal digits.
pub open spec fn is_fingerprint(value: Seq<char>) -> bool {
    &&& value.len() == 64
    &&& forall|i: int|
        0 <= i < 64 ==> '0' <= #[trigger] value[i] <= '9' || 'a' <= value[i] <= 'f'
}

/// The fingerprint that a digest gives.
pub fn fingerprint_of_digest(digest: &[u8; 32]) -> (fingerprint: String)
    ensures
        fingerprint@ == hex_digits(digest@),
        is_fingerprint(fingerprint@),
{
    hex_encode(digest)
}

/// The fingerprint of the servers of a configuration.
pub open spec fn fingerprint_text(servers: Map<Seq<char>, ServerView>) -> Seq<char> {
    hex_digits(sha256(vstd::utf8::encode_utf8(encoding(servers))))
}

/// The fingerprint of a configuration: the digest of its servers, written as JSON, in
/// hexadecimal.
pub fn fingerprint(config: &McpConfig) -> (fingerprint: String)
    ensures
        fingerprint@ == fingerprint_text(config@),
        is_fingerprint(fingerprint@),
{
    let encoded = encode_config(config);
    fingerprint_of_digest(&sha256_digest(encoded.as_str().as_bytes()))
}

} // verus!
