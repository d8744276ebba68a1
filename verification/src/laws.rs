//! What holds of the library as a whole.
use crate::command;
use crate::command::{TrustCommand, TrustEvent};
use crate::config;
use crate::config::{McpConfig, McpServerConfig, ServerView};
use crate::display;
use crate::display::ServerTexts;
use crate::fingerprint;
use crate::json;
use crate::json::Json;
use crate::maps;
use crate::maps::UnorderedMap;
use crate::paths;
use crate::paths::{ProjectRootError, ResolvedPath};
use crate::review;
use crate::review::{ProjectMcpServerReview, ProjectReview, ServerReview};
use crate::store;
use crate::store::{ProjectMcpTrustStore, StoredTrust};
use crate::text;
use vstd::prelude::*;

verus! {

proof fn lemma_map_value_injective(a: UnorderedMap<String>, b: UnorderedMap<String>)
    requires
        fingerprint::map_value(a@) == fingerprint::map_value(b@),
    ensures
        a@ == b@,
{
    maps::lemma_listed(a.pairs());
    maps::lemma_listed(b.pairs());
    let a_members = maps::changed_pairs(maps::listing(a@), fingerprint::as_text());
    let b_members = maps::changed_pairs(maps::listing(b@), fingerprint::as_text());
    assert(a_members == b_members);
    assert forall|i: int| 0 <= i < maps::listing(a@).len() implies maps::listing(a@)[i]
        == maps::listing(b@)[i] by {
        assert(a_members[i] == b_members[i]);
    }
    assert(a_members.len() == b_members.len());
    assert(maps::listing(a@) =~= maps::listing(b@));
}

proof fn lemma_text_list_injective(a: Seq<Seq<char>>, b: Seq<Seq<char>>)
    requires
        json::text_list(a) == json::text_list(b),
    ensures
        a == b,
{
    let a_items = a.map_values(|value: Seq<char>| Json::Text(value));
    let b_items = b.map_values(|value: Seq<char>| Json::Text(value));
    assert(a_items == b_items);
    assert(a_items.len() == b_items.len());
    assert forall|i: int| 0 <= i < a.len() implies a[i] == b[i] by {
        assert(a_items[i] == b_items[i]);
    }
    assert(a =~= b);
}

proof fn lemma_server_members_injective(
    a: McpServerConfig,
    b: McpServerConfig,
)
    requires
        fingerprint::server_members(a@.content) == fingerprint::server_members(b@.content),
    ensures
        a@.content == b@.content,
{
    let x = fingerprint::server_members(a@.content);
    let y = fingerprint::server_members(b@.content);
    assert forall|i: int| 0 <= i < x.len() implies #[trigger] x[i] == y[i] by {}
    lemma_text_list_injective(a@.content.args, b@.content.args);
    lemma_map_value_injective(a.env, b.env);
    lemma_map_value_injective(a.headers, b.headers);
    assert(a@.content =~= b@.content);
}

/// Whether a map of servers is what some configuration defines: there are finitely many of them,
/// and each is the view of a server.
pub open spec fn is_configuration(servers: Map<Seq<char>, ServerView>) -> bool {
    &&& servers.dom().finite()
    &&& forall|name: Seq<char>| #[trigger]
        servers.contains_key(name) ==> exists|server: McpServerConfig| servers[name] == server@
}

/// The servers of a configuration, and the local commands among them, are what some configuration
/// defines.
pub proof fn lemma_is_configuration(config: McpConfig)
    ensures
        is_configuration(config@),
        is_configuration(config::stdio_only(config@)),
{
    maps::lemma_collected_finite(config.servers.pairs());
    assert forall|name: Seq<char>| #[trigger] config@.contains_key(name) implies exists|
        server: McpServerConfig,
    | config@[name] == server@ by {
        let server = maps::lemma_value_of(config.servers, name);
        assert(config@[name] == server@);
    }
    let local = config::stdio_only(config@);
    assert(local.dom().subset_of(config@.dom()));
    vstd::set_lib::lemma_set_subset_finite(config@.dom(), local.dom());
    assert forall|name: Seq<char>| #[trigger] local.contains_key(name) implies exists|
        server: McpServerConfig,
    | local[name] == server@ by {
        assert(config@.contains_key(name));
    }
}

/// What a fingerprint is taken of tells configurations apart: where it is the same for two of
/// them, they define the same servers with the same commands, arguments, environments and
/// settings.
pub proof fn law_encoding_tells_configurations_apart(
    a: Map<Seq<char>, ServerView>,
    b: Map<Seq<char>, ServerView>,
)
    requires
        is_configuration(a),
        is_configuration(b),
        fingerprint::encoding(a) == fingerprint::encoding(b),
    ensures
        fingerprint::contents(a) == fingerprint::contents(b),
        forall|name: Seq<char>| #[trigger] a.contains_key(name) <==> b.contains_key(name),
        forall|name: Seq<char>| #[trigger]
            a.contains_key(name) ==> a[name].content == b[name].content,
{
    let x = fingerprint::contents(a);
    let y = fingerprint::contents(b);
    json::lemma_render_unique(
        fingerprint::document(x),
        fingerprint::document(y),
        seq![],
        seq![],
    );
    assert(x.dom() =~= a.dom());
    assert(y.dom() =~= b.dom());
    maps::lemma_finite_listed(x);
    maps::lemma_finite_listed(y);
    let x_listing = maps::listing(x);
    let y_listing = maps::listing(y);
    let x_members = maps::changed_pairs(x_listing, fingerprint::as_server());
    let y_members = maps::changed_pairs(y_listing, fingerprint::as_server());
    assert(x_members == y_members);
    assert(x_members.len() == y_members.len());
    maps::lemma_ascending_distinct(x_listing);
    maps::lemma_ascending_distinct(y_listing);
    assert forall|i: int| 0 <= i < x_listing.len() implies x_listing[i] == y_listing[i] by {
        assert(x_members[i] == y_members[i]);
        maps::lemma_collected_at(x_listing, i);
        maps::lemma_collected_at(y_listing, i);
        let name = x_listing[i].0;
        assert(a.contains_key(name) && b.contains_key(name));
        let x_server = choose|server: McpServerConfig| a[name] == server@;
        let y_server = choose|server: McpServerConfig| b[name] == server@;
        lemma_server_members_injective(x_server, y_server);
    }
    assert(x_listing =~= y_listing);
    assert(x == y);
    assert forall|name: Seq<char>| #[trigger] a.contains_key(name) <==> b.contains_key(name) by {
        assert(x.contains_key(name) == y.contains_key(name));
    }
    assert forall|name: Seq<char>| #[trigger] a.contains_key(name) implies a[name].content
        == b[name].content by {
        assert(x[name] == y[name]);
    }
}

proof fn lemma_hex_digits_injective(a: Seq<u8>, b: Seq<u8>)
    requires
        fingerprint::hex_digits(a) == fingerprint::hex_digits(b),
    ensures
        a == b,
{
    let x = fingerprint::hex_digits(a);
    let y = fingerprint::hex_digits(b);
    assert(x.len() == 2 * a.len() && y.len() == 2 * b.len());
    assert forall|i: int| 0 <= i < a.len() implies a[i] == b[i] by {
        let high = 2 * i;
        let low = 2 * i + 1;
        assert(high / 2 == i && high % 2 == 0);
        assert(low / 2 == i && low % 2 == 1);
        assert(x[high] == y[high] && x[low] == y[low]);
        assert(x[high] == text::hex_digit(a[i] as nat / 16));
        assert(y[high] == text::hex_digit(b[i] as nat / 16));
        assert(x[low] == text::hex_digit(a[i] as nat % 16));
        assert(y[low] == text::hex_digit(b[i] as nat % 16));
    }
    assert(a =~= b);
}

/// The bytes that the digest of a configuration is taken of.
pub open spec fn digested(servers: Map<Seq<char>, ServerView>) -> Seq<u8> {
    vstd::utf8::encode_utf8(fingerprint::encoding(servers))
}

/// Approval covers exactly one configuration of a project. Once `approved` has been reviewed and
/// the review approved, a review of `current` counts as approved only if both define the same
/// local commands with the same arguments, environments and settings, unless SHA-256 gives one
/// digest for two different encodings.
pub proof fn law_changed_configuration_needs_approval(
    projects: Map<Seq<char>, Seq<char>>,
    resolved: ResolvedPath,
    approved: McpConfig,
    approved_review: ProjectReview,
    current: McpConfig,
    current_review: ProjectReview,
)
    requires
        review::config_review(resolved, config::stdio_only(approved@)) == Ok::<_, ProjectRootError>(
            Some(approved_review),
        ),
        review::config_review(resolved, config::stdio_only(current@)) == Ok::<_, ProjectRootError>(
            Some(current_review),
        ),
        exists|name: Seq<char>|
            {
                ||| (#[trigger] approved@.contains_key(name) && approved@[name].stdio) != (
                current@.contains_key(name) && current@[name].stdio)
                ||| approved@.contains_key(name) && approved@[name].stdio && approved@[name].content
                    != current@[name].content
            },
        fingerprint::sha256(digested(config::stdio_only(approved@))) == fingerprint::sha256(
            digested(config::stdio_only(current@)),
        ) ==> digested(config::stdio_only(approved@)) == digested(config::stdio_only(current@)),
    ensures
        !store::is_approved(
            projects.insert(
                paths::lossy_text(approved_review.project_root),
                approved_review.fingerprint,
            ),
            paths::lossy_text(current_review.project_root),
            current_review.fingerprint,
        ),
{
    let a = config::stdio_only(approved@);
    let b = config::stdio_only(current@);
    if fingerprint::fingerprint_text(a) == fingerprint::fingerprint_text(b) {
        lemma_hex_digits_injective(
            fingerprint::sha256(digested(a)),
            fingerprint::sha256(digested(b)),
        );
        text::lemma_utf8_injective(fingerprint::encoding(a), fingerprint::encoding(b));
        lemma_is_configuration(approved);
        lemma_is_configuration(current);
        law_encoding_tells_configurations_apart(a, b);
        let name = choose|name: Seq<char>|
            {
                ||| (#[trigger] approved@.contains_key(name) && approved@[name].stdio) != (
                current@.contains_key(name) && current@[name].stdio)
                ||| approved@.contains_key(name) && approved@[name].stdio && approved@[name].content
                    != current@[name].content
            };
        assert(a.contains_key(name) == b.contains_key(name));
    }
}

/// A review of a configuration that defines the same local commands as the approved one counts as
/// approved.
pub proof fn law_unchanged_configuration_stays_approved(
    projects: Map<Seq<char>, Seq<char>>,
    resolved: ResolvedPath,
    approved: McpConfig,
    approved_review: ProjectReview,
    current: McpConfig,
    current_review: ProjectReview,
)
    requires
        review::config_review(resolved, config::stdio_only(approved@)) == Ok::<_, ProjectRootError>(
            Some(approved_review),
        ),
        review::config_review(resolved, config::stdio_only(current@)) == Ok::<_, ProjectRootError>(
            Some(current_review),
        ),
        forall|name: Seq<char>| #[trigger]
            approved@.contains_key(name) && approved@[name].stdio <==> current@.contains_key(name)
                && current@[name].stdio,
        forall|name: Seq<char>| #[trigger]
            approved@.contains_key(name) && approved@[name].stdio ==> approved@[name].content
                == current@[name].content,
    ensures
        store::is_approved(
            projects.insert(
                paths::lossy_text(approved_review.project_root),
                approved_review.fingerprint,
            ),
            paths::lossy_text(current_review.project_root),
            current_review.fingerprint,
        ),
{
    let a = fingerprint::contents(config::stdio_only(approved@));
    let b = fingerprint::contents(config::stdio_only(current@));
    assert(a =~= b);
}

/// The order in which a configuration keeps its servers matters neither to the fingerprint nor to
/// the review.
pub proof fn law_server_order_is_immaterial(a: McpConfig, b: McpConfig)
    requires
        maps::distinct_keys(a.servers.pairs()),
        maps::distinct_keys(b.servers.pairs()),
        forall|pair: (Seq<char>, ServerView)|
            a.servers.pairs().contains(pair) <==> b.servers.pairs().contains(pair),
    ensures
        fingerprint::fingerprint_text(a@) == fingerprint::fingerprint_text(b@),
        review::server_reviews(a@) == review::server_reviews(b@),
{
    maps::law_entry_order_is_immaterial(a.servers.pairs(), b.servers.pairs());
}

/// A review shows every server of the configuration, and no other, in ascending order of their
/// names.
pub proof fn law_review_shows_every_server(config: McpConfig)
    ensures
        review::server_reviews(config@).len() == config@.dom().len(),
        forall|i: int|
            0 <= i < review::server_reviews(config@).len() ==> config@.contains_key(
                (#[trigger] review::server_reviews(config@)[i]).name,
            ),
        forall|name: Seq<char>| #[trigger]
            config@.contains_key(name) ==> review::server_reviews(config@).contains(
                review::as_review()(name, config@[name]),
            ),
        forall|i: int, j: int|
            0 <= i < j < review::server_reviews(config@).len() ==> text::text_before(
                (#[trigger] review::server_reviews(config@)[i]).name,
                (#[trigger] review::server_reviews(config@)[j]).name,
            ),
{
    let listing = maps::listing(config@);
    let reviews = review::server_reviews(config@);
    maps::lemma_listed(config.servers.pairs());
    maps::lemma_ascending_distinct(listing);
    maps::lemma_collected_len(listing);
    assert forall|i: int| 0 <= i < reviews.len() implies config@.contains_key(
        (#[trigger] reviews[i]).name,
    ) by {
        maps::lemma_collected_at(listing, i);
    }
    assert forall|name: Seq<char>| #[trigger] config@.contains_key(name) implies reviews.contains(
        review::as_review()(name, config@[name]),
    ) by {
        maps::lemma_collected_from(listing, name);
        let i = choose|i: int| 0 <= i < listing.len() && (#[trigger] listing[i]).0 == name;
        maps::lemma_collected_at(listing, i);
        assert(reviews[i] == review::as_review()(name, config@[name]));
    }
    assert forall|i: int, j: int| 0 <= i < j < reviews.len() implies text::text_before(
        (#[trigger] reviews[i]).name,
        (#[trigger] reviews[j]).name,
    ) by {
        assert(text::text_before(listing[i].0, listing[j].0));
    }
}

/// A configuration without local commands has nothing to approve, even where the project cannot
/// be resolved.
pub proof fn law_remote_servers_need_no_approval(
    resolved: ResolvedPath,
    servers: Map<Seq<char>, ServerView>,
)
    requires
        forall|name: Seq<char>| #[trigger] servers.contains_key(name) ==> !servers[name].stdio,
    ensures
        review::config_review(resolved, config::stdio_only(servers)) == Ok::<_, ProjectRootError>(
            None::<ProjectReview>,
        ),
{
    assert(config::stdio_only(servers) =~= Map::empty());
}

/// Servers that are no local commands have no part in a review: one more or one less of them
/// changes nothing.
pub proof fn law_remote_servers_have_no_part_in_review(
    resolved: ResolvedPath,
    servers: Map<Seq<char>, ServerView>,
    name: Seq<char>,
    remote: ServerView,
)
    requires
        !remote.stdio,
        servers.contains_key(name) ==> !servers[name].stdio,
    ensures
        review::config_review(resolved, config::stdio_only(servers.insert(name, remote)))
            == review::config_review(resolved, config::stdio_only(servers)),
        review::config_review(resolved, config::stdio_only(servers.remove(name)))
            == review::config_review(resolved, config::stdio_only(servers)),
{
    assert(config::stdio_only(servers.insert(name, remote)) =~= config::stdio_only(servers));
    assert(config::stdio_only(servers.remove(name)) =~= config::stdio_only(servers));
}

/// A server is reviewed where it is a local command both before and after the references to the
/// environment are expanded, and as expanding leaves it; no other server is.
pub proof fn law_reviewed_servers_are_local_before_and_after_expanding(
    loaded: Map<Seq<char>, ServerView>,
    expand: spec_fn(Seq<char>, ServerView) -> ServerView,
)
    ensures
        forall|name: Seq<char>| #[trigger]
            config::stdio_only(maps::changed(config::stdio_only(loaded), expand)).contains_key(name)
                <==> loaded.contains_key(name) && loaded[name].stdio && expand(
                name,
                loaded[name],
            ).stdio,
        forall|name: Seq<char>|
            config::stdio_only(maps::changed(config::stdio_only(loaded), expand)).contains_key(name)
                ==> #[trigger] config::stdio_only(
                maps::changed(config::stdio_only(loaded), expand),
            )[name] == expand(name, loaded[name]),
{
}

/// Approving a review approves its fingerprint, and no other, for its project.
pub proof fn law_approval_is_exact(
    projects: Map<Seq<char>, Seq<char>>,
    key: Seq<char>,
    approved: Seq<char>,
    current: Seq<char>,
)
    ensures
        store::is_approved(projects.insert(key, approved), key, current) <==> approved == current,
{
}

/// Approving or revoking one project leaves every other as it was.
pub proof fn law_projects_are_independent(
    projects: Map<Seq<char>, Seq<char>>,
    key: Seq<char>,
    approved: Seq<char>,
    other: Seq<char>,
    current: Seq<char>,
)
    requires
        other != key,
    ensures
        store::is_approved(projects.insert(key, approved), other, current) == store::is_approved(
            projects,
            other,
            current,
        ),
        store::is_approved(projects.remove(key), other, current) == store::is_approved(
            projects,
            other,
            current,
        ),
{
}

/// Revoking takes back whatever was approved for the project. After an approval there is
/// something to revoke; after a revocation there is nothing.
pub proof fn law_revocation_takes_approval_back(
    projects: Map<Seq<char>, Seq<char>>,
    key: Seq<char>,
    approved: Seq<char>,
    current: Seq<char>,
)
    ensures
        projects.insert(key, approved).contains_key(key),
        !store::is_approved(projects.insert(key, approved).remove(key), key, current),
        !projects.insert(key, approved).remove(key).contains_key(key),
        projects.insert(key, approved).remove(key) == projects.remove(key),
{
    assert(projects.insert(key, approved).remove(key) =~= projects.remove(key));
}

/// A store that is missing, cannot be read or has another version approves nothing.
pub proof fn law_unusable_store_approves_nothing(
    stored: StoredTrust,
    key: Seq<char>,
    fingerprint: Seq<char>,
)
    requires
        stored matches StoredTrust::Read(store) ==> store.version != store::TRUST_STORE_VERSION,
    ensures
        !store::is_approved(store::approvals(stored), key, fingerprint),
{
}

/// A store that was saved is the store that is loaded, without a warning.
pub proof fn law_saved_store_is_loaded(saved: ProjectMcpTrustStore)
    requires
        saved.version == store::TRUST_STORE_VERSION,
    ensures
        store::approvals(StoredTrust::Read(saved)) == saved.projects@,
        store::warning_for(StoredTrust::Read(saved)) is None,
{
}

/// An approval lasts: once the store that it was entered into is saved, it is there when the store
/// is loaded again.
pub proof fn law_approval_lasts(
    stored: StoredTrust,
    saved: ProjectMcpTrustStore,
    key: Seq<char>,
    fingerprint: Seq<char>,
)
    requires
        saved.version == store::TRUST_STORE_VERSION,
        saved.projects@ == store::approvals(stored).insert(key, fingerprint),
    ensures
        store::is_approved(store::approvals(StoredTrust::Read(saved)), key, fingerprint),
{
}

/// A revocation lasts: once the store that the approval was taken out of is saved, nothing is
/// approved for the project when the store is loaded again.
pub proof fn law_revocation_lasts(
    stored: StoredTrust,
    saved: ProjectMcpTrustStore,
    key: Seq<char>,
    fingerprint: Seq<char>,
)
    requires
        saved.version == store::TRUST_STORE_VERSION,
        saved.projects@ == store::approvals(stored).remove(key),
    ensures
        !store::is_approved(store::approvals(StoredTrust::Read(saved)), key, fingerprint),
{
}

/// Text that is safe is shown as it is.
pub proof fn law_safe_text_is_shown_unchanged(value: Seq<char>)
    requires
        display::all_safe(value),
    ensures
        display::safe_text(value) == value,
    decreases value.len(),
{
    if value.len() > 0 {
        assert(display::is_safe(value[value.len() - 1]));
        assert forall|i: int| 0 <= i < value.drop_last().len() implies display::is_safe(
            #[trigger] value.drop_last()[i],
        ) by {
            assert(display::is_safe(value[i]));
        }
        law_safe_text_is_shown_unchanged(value.drop_last());
    }
    assert(display::safe_text(value) =~= value);
}

/// Making a text safe a second time changes nothing.
pub proof fn law_safe_text_is_stable(value: Seq<char>)
    ensures
        display::safe_text(display::safe_text(value)) == display::safe_text(value),
{
    display::lemma_safe_text_is_safe(value);
    law_safe_text_is_shown_unchanged(display::safe_text(value));
}

/// Texts can be made safe piece by piece: no escape sequence depends on what stands beside it.
pub proof fn law_safe_text_of_joined_texts(a: Seq<char>, b: Seq<char>)
    ensures
        display::safe_text(a + b) == display::safe_text(a) + display::safe_text(b),
    decreases b.len(),
{
    if b.len() == 0 {
        assert(a + b =~= a);
    } else {
        assert((a + b).drop_last() =~= a + b.drop_last());
        law_safe_text_of_joined_texts(a, b.drop_last());
    }
    assert(display::safe_text(a + b) =~= display::safe_text(a) + display::safe_text(b));
}

/// A redacted value is not revealed: what is shown of servers depends on their environments only
/// through the redacted texts.
pub proof fn law_redacted_values_are_not_revealed(
    a: Seq<ServerReview>,
    b: Seq<ServerReview>,
    redacted: Seq<Seq<Seq<char>>>,
)
    requires
        a.len() == b.len(),
        forall|i: int|
            0 <= i < a.len() ==> (#[trigger] a[i]).name == b[i].name && a[i].command == b[i].command
                && a[i].args == b[i].args,
    ensures
        display::all_texts(a, redacted) == display::all_texts(b, redacted),
{
    assert(display::all_texts(a, redacted) =~= display::all_texts(b, redacted));
}

/// Where nothing counts as hidden, the environments are shown in full.
pub proof fn law_nothing_hidden_means_all_shown(
    servers: Seq<ServerReview>,
    redacted: Seq<Seq<Seq<char>>>,
)
    requires
        redacted.len() == servers.len(),
        !display::any_hidden(servers, redacted),
    ensures
        display::all_texts(servers, redacted) == display::all_texts(
            servers,
            servers.map_values(|server: ServerReview| display::assignments(server.env)),
        ),
{
    let plain = servers.map_values(|server: ServerReview| display::assignments(server.env));
    assert forall|i: int| 0 <= i < servers.len() implies redacted[i] == plain[i] by {
        assert(!display::hides(servers[i], redacted[i]));
    }
    assert(display::all_texts(servers, redacted) =~= display::all_texts(servers, plain));
}

/// The environment of a server is shown whole: every variable stands among the assignments with
/// its value, and nothing else does.
pub proof fn law_every_variable_is_shown(server: ProjectMcpServerReview)
    ensures
        display::assignments(server@.env).len() == server@.env.dom().len(),
        forall|key: Seq<char>| #[trigger]
            server@.env.contains_key(key) ==> display::assignments(server@.env).contains(
                display::assignment((key, server@.env[key])),
            ),
        forall|shown: Seq<char>| #[trigger]
            display::assignments(server@.env).contains(shown) ==> exists|key: Seq<char>|
                #[trigger] server@.env.contains_key(key) && shown == display::assignment(
                    (key, server@.env[key]),
                ),
{
    let env = server@.env;
    let listing = maps::listing(env);
    let shown = display::assignments(env);
    maps::lemma_ordered_listed(server.env);
    maps::lemma_ascending_distinct(listing);
    maps::lemma_collected_len(listing);
    assert forall|key: Seq<char>| #[trigger] env.contains_key(key) implies shown.contains(
        display::assignment((key, env[key])),
    ) by {
        maps::lemma_collected_from(listing, key);
        let i = choose|i: int| 0 <= i < listing.len() && (#[trigger] listing[i]).0 == key;
        maps::lemma_collected_at(listing, i);
        assert(shown[i] == display::assignment((key, env[key])));
    }
    assert forall|text: Seq<char>| #[trigger] shown.contains(text) implies exists|key: Seq<char>|
        #[trigger] env.contains_key(key) && text == display::assignment((key, env[key])) by {
        let i = choose|i: int| 0 <= i < shown.len() && shown[i] == text;
        maps::lemma_collected_at(listing, i);
        assert(env.contains_key(listing[i].0));
    }
}

/// Whether every text of a list may reach a terminal as it is.
pub open spec fn all_texts_safe(texts: Seq<Seq<char>>) -> bool {
    forall|i: int| 0 <= i < texts.len() ==> display::all_safe(#[trigger] texts[i])
}

/// Whether every text of a server may reach a terminal as it is.
pub open spec fn server_is_safe(server: ServerTexts) -> bool {
    &&& display::all_safe(server.name)
    &&& display::all_safe(server.command)
    &&& all_texts_safe(server.args)
    &&& all_texts_safe(server.environment)
}

/// The number of lines of a section: one for each item and one for the heading, if there are any.
pub open spec fn section_size(items: Seq<Seq<char>>) -> nat {
    if items.len() == 0 {
        0
    } else {
        items.len() + 1
    }
}

/// The number of lines that show servers: two for each, and its sections.
pub open spec fn servers_size(servers: Seq<ServerTexts>) -> nat
    decreases servers.len(),
{
    if servers.len() == 0 {
        0
    } else {
        servers_size(servers.drop_last()) + 2 + section_size(servers.last().args) + section_size(
            servers.last().environment,
        )
    }
}

proof fn lemma_decimal_safe(number: nat)
    ensures
        display::all_safe(text::decimal(number)),
    decreases number,
{
    if number >= 10 {
        lemma_decimal_safe(number / 10);
    }
}

proof fn lemma_section_safe(heading: Seq<char>, items: Seq<Seq<char>>)
    requires
        display::all_safe(heading),
        all_texts_safe(items),
    ensures
        all_texts_safe(display::section(heading, items)),
{
    reveal_strlit("      - ");
    let lines = display::section(heading, items);
    assert forall|i: int| 0 <= i < lines.len() implies display::all_safe(#[trigger] lines[i]) by {
        if i > 0 {
            assert(lines[i] == "      - "@ + items[i - 1]);
            assert(display::all_safe(items[i - 1]));
        }
    }
}

proof fn lemma_servers_lines(servers: Seq<ServerTexts>)
    ensures
        display::servers_lines(servers).len() == servers_size(servers),
        (forall|i: int| 0 <= i < servers.len() ==> server_is_safe(#[trigger] servers[i]))
            ==> all_texts_safe(display::servers_lines(servers)),
    decreases servers.len(),
{
    if servers.len() > 0 {
        let fewer = servers.drop_last();
        let server = servers.last();
        lemma_servers_lines(fewer);
        if forall|i: int| 0 <= i < servers.len() ==> server_is_safe(#[trigger] servers[i]) {
            assert forall|i: int| 0 <= i < fewer.len() implies server_is_safe(
                #[trigger] fewer[i],
            ) by {
                assert(server_is_safe(servers[i]));
            }
            assert(server_is_safe(servers[servers.len() - 1]));
            reveal_strlit("  - ");
            reveal_strlit("    command: ");
            reveal_strlit("    arguments:");
            reveal_strlit("    environment:");
            lemma_section_safe("    arguments:"@, server.args);
            lemma_section_safe("    environment:"@, server.environment);
            assert(display::all_safe("  - "@ + server.name));
            assert(display::all_safe("    command: "@ + server.command));
            assert(all_texts_safe(display::server_lines(server)));
        }
    }
}

/// What a project defines adds no line to what is shown of it: the number of lines depends on the
/// number of servers, arguments and variables alone.
pub proof fn law_texts_add_no_lines(servers: Seq<ServerTexts>, project: Seq<char>, hidden: bool)
    ensures
        display::review_lines(servers, project, hidden).len() == 4 + (if hidden {
            1nat
        } else {
            0nat
        }) + servers_size(servers),
{
    lemma_servers_lines(servers);
}

/// Where every text that is handed in is safe, every line that is shown is safe: it holds no line
/// break, no other control code and no character that cannot be seen.
pub proof fn law_safe_texts_make_safe_lines(
    servers: Seq<ServerTexts>,
    project: Seq<char>,
    hidden: bool,
)
    requires
        forall|i: int| 0 <= i < servers.len() ==> server_is_safe(#[trigger] servers[i]),
        display::all_safe(project),
    ensures
        all_texts_safe(display::review_lines(servers, project, hidden)),
{
    lemma_servers_lines(servers);
    lemma_decimal_safe(servers.len());
    reveal_strlit("This project defines ");
    reveal_strlit(" MCP server(s) that can run local commands:");
    reveal_strlit("Project: ");
    reveal_strlit("Some environment values are redacted and may affect execution.");
    reveal_strlit("Jcode has not started these project-local servers.");
    assert(display::all_safe(
        "This project defines "@ + text::decimal(servers.len())
            + " MCP server(s) that can run local commands:"@,
    ));
    assert(display::all_safe("Project: "@ + project));
    assert(display::all_safe(
        "Some environment values are redacted and may affect execution."@,
    ));
    assert(display::all_safe("Jcode has not started these project-local servers."@));
}

/// Whatever a project defines, every line that is shown of it is safe, provided that the `{:?}` of
/// a format string leaves safe text safe.
pub proof fn law_shown_review_is_safe(
    servers: Seq<ServerReview>,
    redacted: Seq<Seq<Seq<char>>>,
    project: Seq<char>,
    hidden: bool,
)
    requires
        forall|value: Seq<char>|
            display::all_safe(value) ==> display::all_safe(#[trigger] display::debug_form(value)),
    ensures
        all_texts_safe(
            display::review_lines(
                display::all_texts(servers, redacted),
                display::quoted_text(project),
                hidden,
            ),
        ),
{
    let texts = display::all_texts(servers, redacted);
    assert forall|i: int| 0 <= i < texts.len() implies server_is_safe(#[trigger] texts[i]) by {
        display::lemma_safe_text_is_safe(servers[i].name);
        display::lemma_safe_text_is_safe(servers[i].command);
        lemma_quoted_texts_safe(servers[i].args);
        lemma_quoted_texts_safe(redacted[i]);
    }
    display::lemma_safe_text_is_safe(project);
    law_safe_texts_make_safe_lines(texts, display::quoted_text(project), hidden);
}

proof fn lemma_quoted_texts_safe(values: Seq<Seq<char>>)
    requires
        forall|value: Seq<char>|
            display::all_safe(value) ==> display::all_safe(#[trigger] display::debug_form(value)),
    ensures
        all_texts_safe(display::quoted_texts(values)),
{
    assert forall|i: int| 0 <= i < values.len() implies display::all_safe(
        #[trigger] display::quoted_texts(values)[i],
    ) by {
        display::lemma_safe_text_is_safe(values[i]);
    }
}

/// The number of lines that show a review, whatever the texts are: arguments and redacted
/// assignments are counted, not read.
pub proof fn law_shown_review_has_fixed_length(
    servers: Seq<ServerReview>,
    redacted: Seq<Seq<Seq<char>>>,
    other_servers: Seq<ServerReview>,
    other_redacted: Seq<Seq<Seq<char>>>,
    project: Seq<char>,
    other_project: Seq<char>,
    hidden: bool,
)
    requires
        servers.len() == other_servers.len(),
        forall|i: int|
            0 <= i < servers.len() ==> (#[trigger] servers[i]).args.len()
                == other_servers[i].args.len() && redacted[i].len() == other_redacted[i].len(),
    ensures
        display::review_lines(
            display::all_texts(servers, redacted),
            display::quoted_text(project),
            hidden,
        ).len() == display::review_lines(
            display::all_texts(other_servers, other_redacted),
            display::quoted_text(other_project),
            hidden,
        ).len(),
{
    let a = display::all_texts(servers, redacted);
    let b = display::all_texts(other_servers, other_redacted);
    lemma_servers_lines(a);
    lemma_servers_lines(b);
    assert forall|i: int| 0 <= i < a.len() implies (#[trigger] a[i]).args.len() == b[i].args.len()
        && a[i].environment.len() == b[i].environment.len() by {
        assert(servers[i].args.len() == other_servers[i].args.len());
    }
    lemma_same_size(a, b);
}

proof fn lemma_same_size(a: Seq<ServerTexts>, b: Seq<ServerTexts>)
    requires
        a.len() == b.len(),
        forall|i: int|
            0 <= i < a.len() ==> (#[trigger] a[i]).args.len() == b[i].args.len()
                && a[i].environment.len() == b[i].environment.len(),
    ensures
        servers_size(a) == servers_size(b),
    decreases a.len(),
{
    if a.len() > 0 {
        assert(a[a.len() - 1].args.len() == b[b.len() - 1].args.len());
        assert forall|i: int| 0 <= i < a.drop_last().len() implies (
        #[trigger] a.drop_last()[i]).args.len() == b.drop_last()[i].args.len()
            && a.drop_last()[i].environment.len() == b.drop_last()[i].environment.len() by {
            assert(a[i].args.len() == b[i].args.len());
        }
        lemma_same_size(a.drop_last(), b.drop_last());
    }
}

/// Where the command that approves a configuration gets to over a sequence of events.
pub open spec fn run(yes: bool, events: Seq<TrustEvent>) -> Option<TrustCommand>
    decreases events.len(),
{
    if events.len() == 0 {
        Some(TrustCommand::Reviewing { yes })
    } else {
        match run(yes, events.drop_last()) {
            Some(command) => command::turns_to(command, events.last()),
            None => None,
        }
    }
}

/// How many events the command can hear at most before it ends.
pub open spec fn events_left(command: TrustCommand) -> nat {
    match command {
        TrustCommand::Reviewing { .. } => 6,
        TrustCommand::CheckingTrust { .. } => 5,
        TrustCommand::ProbingTerminal { .. } => 4,
        TrustCommand::Showing { .. } => 3,
        TrustCommand::Asking { .. } => 2,
        TrustCommand::Saving { .. } => 1,
        TrustCommand::Done(_) => 0,
        TrustCommand::Refused(_) => 0,
    }
}

/// The command comes to an end: every event that it waits for brings it closer to one.
pub proof fn law_command_comes_to_an_end(command: TrustCommand, event: TrustEvent)
    requires
        command::turns_to(command, event) is Some,
    ensures
        events_left(command::turns_to(command, event)->0) < events_left(command),
{
}

/// An approval is saved in two cases only: the user approved beforehand and the review was shown,
/// or the user could be asked, saw everything, and approved. In both the project has local
/// commands that are not approved yet.
pub proof fn law_approval_is_saved_only_with_consent(
    yes: bool,
    events: Seq<TrustEvent>,
    servers: usize,
)
    ensures
        run(yes, events) == Some(TrustCommand::Saving { servers }) <==> {
            ||| yes && exists|hidden: bool|
                events == #[trigger] consent_beforehand(servers, hidden)
            ||| !yes && events == consent_when_asked(servers)
        },
{
    reveal_with_fuel(run, 7);
    if run(yes, events) == Some(TrustCommand::Saving { servers }) {
        if yes {
            let hidden = events.last()->hidden;
            assert(events =~= consent_beforehand(servers, hidden));
        } else {
            assert(events =~= consent_when_asked(servers));
        }
    }
    if yes && exists|hidden: bool| events == #[trigger] consent_beforehand(servers, hidden) {
        let hidden = choose|hidden: bool| events == #[trigger] consent_beforehand(servers, hidden);
        assert(events.drop_last() =~= seq![
            TrustEvent::Reviewed(Some(servers)),
            TrustEvent::TrustChecked(false),
        ]);
    }
}

/// The events of a run with approval beforehand.
pub open spec fn consent_beforehand(servers: usize, hidden: bool) -> Seq<TrustEvent> {
    seq![
        TrustEvent::Reviewed(Some(servers)),
        TrustEvent::TrustChecked(false),
        TrustEvent::Shown { hidden },
    ]
}

/// The events of a run in which the user is asked and approves.
pub open spec fn consent_when_asked(servers: usize) -> Seq<TrustEvent> {
    seq![
        TrustEvent::Reviewed(Some(servers)),
        TrustEvent::TrustChecked(false),
        TrustEvent::TerminalProbed(true),
        TrustEvent::Shown { hidden: false },
        TrustEvent::Answered(true),
    ]
}

} // verus!
