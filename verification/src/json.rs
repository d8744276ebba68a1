//! JSON documents in compact form: what a document is, how it is written down, and that the
//! written form determines the document.
use crate::text;
use vstd::prelude::*;
use vstd::string::StringExecFns;

verus! {

/// A JSON document. The members of an object keep their order.
#[verifier::ext_equal]
pub enum Json {
    Null,
    Flag(bool),
    Number(nat),
    Text(Seq<char>),
    List(Seq<Json>),
    Object(Seq<(Seq<char>, Json)>),
}

/// A character inside a JSON string.
pub open spec fn escape(c: char) -> Seq<char> {
    if c == '"' {
        seq!['\\', '"']
    } else if c == '\\' {
        seq!['\\', '\\']
    } else if c == '\u{8}' {
        seq!['\\', 'b']
    } else if c == '\t' {
        seq!['\\', 't']
    } else if c == '\n' {
        seq!['\\', 'n']
    } else if c == '\u{c}' {
        seq!['\\', 'f']
    } else if c == '\r' {
        seq!['\\', 'r']
    } else if c <= '\u{1f}' {
        seq!['\\', 'u', '0', '0', text::hex_digit(c as nat / 16), text::hex_digit(c as nat % 16)]
    } else {
        seq![c]
    }
}

/// The characters of a text inside a JSON string.
pub open spec fn escaped(text: Seq<char>) -> Seq<char>
    decreases text.len(),
{
    if text.len() == 0 {
        seq![]
    } else {
        escape(text[0]) + escaped(text.drop_first())
    }
}

/// A text as a JSON string.
pub open spec fn quoted(text: Seq<char>) -> Seq<char> {
    seq!['"'] + escaped(text) + seq!['"']
}

/// The written form of a JSON document, without white space.
pub open spec fn render(value: Json) -> Seq<char>
    decreases value,
{
    match value {
        Json::Null => seq!['n', 'u', 'l', 'l'],
        Json::Flag(true) => seq!['t', 'r', 'u', 'e'],
        Json::Flag(false) => seq!['f', 'a', 'l', 's', 'e'],
        Json::Number(number) => text::decimal(number),
        Json::Text(text) => quoted(text),
        Json::List(items) => seq!['['] + render_items(items) + seq![']'],
        Json::Object(members) => seq!['{'] + render_members(members) + seq!['}'],
    }
}

/// The items of a list, separated by commas.
pub open spec fn render_items(items: Seq<Json>) -> Seq<char>
    decreases items,
{
    if items.len() == 0 {
        seq![]
    } else if items.len() == 1 {
        render(items[0])
    } else {
        render(items[0]) + seq![','] + render_items(items.subrange(1, items.len() as int))
    }
}

/// The members of an object, separated by commas.
pub open spec fn render_members(members: Seq<(Seq<char>, Json)>) -> Seq<char>
    decreases members,
{
    if members.len() == 0 {
        seq![]
    } else if members.len() == 1 {
        quoted(members[0].0) + seq![':'] + render(members[0].1)
    } else {
        quoted(members[0].0) + seq![':'] + render(members[0].1) + seq![','] + render_members(
            members.subrange(1, members.len() as int),
        )
    }
}

/// Whether what follows a value in a document is its end, or one of the characters that close
/// the value.
pub open spec fn closes_value(rest: Seq<char>) -> bool {
    rest.len() > 0 ==> rest[0] == ',' || rest[0] == ']' || rest[0] == '}'
}

proof fn lemma_same_tail(head: Seq<char>, a: Seq<char>, b: Seq<char>)
    requires
        head + a == head + b,
    ensures
        a == b,
{
    assert(a =~= (head + a).skip(head.len() as int));
    assert(b =~= (head + b).skip(head.len() as int));
}

proof fn lemma_escape_unique(c: char, d: char, c_rest: Seq<char>, d_rest: Seq<char>)
    requires
        escape(c) + c_rest == escape(d) + d_rest,
    ensures
        c == d,
        c_rest == d_rest,
{
    let whole = escape(c) + c_rest;
    assert(whole[0] == escape(c)[0]);
    assert(whole[0] == escape(d)[0]);
    if whole[0] == '\\' {
        assert(whole[1] == escape(c)[1]);
        assert(whole[1] == escape(d)[1]);
        if whole[1] == 'u' {
            assert(whole[4] == escape(c)[4] && whole[4] == escape(d)[4]);
            assert(whole[5] == escape(c)[5] && whole[5] == escape(d)[5]);
        }
    }
    assert(c == d);
    lemma_same_tail(escape(c), c_rest, d_rest);
}

proof fn lemma_escaped_unique(s: Seq<char>, t: Seq<char>, s_rest: Seq<char>, t_rest: Seq<char>)
    requires
        escaped(s) + seq!['"'] + s_rest == escaped(t) + seq!['"'] + t_rest,
    ensures
        s == t,
        s_rest == t_rest,
    decreases s.len(),
{
    let s_whole = escaped(s) + seq!['"'] + s_rest;
    let t_whole = escaped(t) + seq!['"'] + t_rest;
    if s.len() == 0 || t.len() == 0 {
        if s.len() > 0 {
            assert(s_whole[0] == escape(s[0])[0]);
        }
        if t.len() > 0 {
            assert(t_whole[0] == escape(t[0])[0]);
        }
        assert(s =~= t);
        lemma_same_tail(escaped(s) + seq!['"'], s_rest, t_rest);
    } else {
        let s_tail = escaped(s.drop_first()) + seq!['"'] + s_rest;
        let t_tail = escaped(t.drop_first()) + seq!['"'] + t_rest;
        assert(s_whole =~= escape(s[0]) + s_tail);
        assert(t_whole =~= escape(t[0]) + t_tail);
        lemma_escape_unique(s[0], t[0], s_tail, t_tail);
        lemma_escaped_unique(s.drop_first(), t.drop_first(), s_rest, t_rest);
        assert(s =~= seq![s[0]] + s.drop_first());
        assert(t =~= seq![t[0]] + t.drop_first());
    }
}

proof fn lemma_quoted_unique(s: Seq<char>, t: Seq<char>, s_rest: Seq<char>, t_rest: Seq<char>)
    requires
        quoted(s) + s_rest == quoted(t) + t_rest,
    ensures
        s == t,
        s_rest == t_rest,
{
    let s_tail = escaped(s) + seq!['"'] + s_rest;
    let t_tail = escaped(t) + seq!['"'] + t_rest;
    assert(quoted(s) + s_rest =~= seq!['"'] + s_tail);
    assert(quoted(t) + t_rest =~= seq!['"'] + t_tail);
    lemma_same_tail(seq!['"'], s_tail, t_tail);
    lemma_escaped_unique(s, t, s_rest, t_rest);
}

/// Whether a character is one of the ten decimal digits.
pub open spec fn is_decimal_digit(c: char) -> bool {
    '0' <= c <= '9'
}

proof fn lemma_decimal_digits(n: nat)
    ensures
        text::decimal(n).len() > 0,
        forall|i: int| 0 <= i < text::decimal(n).len() ==> is_decimal_digit(#[trigger] text::decimal(n)[i]),
    decreases n,
{
    if n >= 10 {
        lemma_decimal_digits(n / 10);
    }
}

proof fn lemma_decimal_injective(m: nat, n: nat)
    requires
        text::decimal(m) == text::decimal(n),
    ensures
        m == n,
    decreases m,
{
    lemma_decimal_digits(m / 10);
    lemma_decimal_digits(n / 10);
    assert(text::decimal(m).last() == text::decimal_digit(m % 10));
    assert(text::decimal(n).last() == text::decimal_digit(n % 10));
    assert(m % 10 == n % 10);
    if m >= 10 && n >= 10 {
        assert(text::decimal(m / 10) =~= text::decimal(m).drop_last());
        assert(text::decimal(n / 10) =~= text::decimal(n).drop_last());
        lemma_decimal_injective(m / 10, n / 10);
    }
}

proof fn lemma_decimal_unique(m: nat, n: nat, m_rest: Seq<char>, n_rest: Seq<char>)
    requires
        text::decimal(m) + m_rest == text::decimal(n) + n_rest,
        closes_value(m_rest),
        closes_value(n_rest),
    ensures
        m == n,
        m_rest == n_rest,
{
    let a = text::decimal(m);
    let b = text::decimal(n);
    lemma_decimal_digits(m);
    lemma_decimal_digits(n);
    if a.len() < b.len() {
        assert((a + m_rest)[a.len() as int] == m_rest[0]);
        assert((b + n_rest)[a.len() as int] == b[a.len() as int]);
    }
    if b.len() < a.len() {
        assert((b + n_rest)[b.len() as int] == n_rest[0]);
        assert((a + m_rest)[b.len() as int] == a[b.len() as int]);
    }
    assert(a =~= (a + m_rest).take(a.len() as int));
    assert(b =~= (b + n_rest).take(b.len() as int));
    lemma_decimal_injective(m, n);
    lemma_same_tail(a, m_rest, n_rest);
}

/// The first character of a value tells its kind.
proof fn lemma_render_first(value: Json)
    ensures
        render(value).len() > 0,
        match value {
            Json::Null => render(value)[0] == 'n',
            Json::Flag(flag) => render(value)[0] == if flag { 't' } else { 'f' },
            Json::Number(_) => is_decimal_digit(render(value)[0]),
            Json::Text(_) => render(value)[0] == '"',
            Json::List(_) => render(value)[0] == '[',
            Json::Object(_) => render(value)[0] == '{',
        },
{
    if let Json::Number(number) = value {
        lemma_decimal_digits(number);
    }
}

/// What follows the first of several values that a comma separates and `close` ends.
spec fn after_first(more: Seq<char>, last: bool, close: char, rest: Seq<char>) -> Seq<char> {
    if last {
        seq![close] + rest
    } else {
        seq![','] + more + seq![close] + rest
    }
}

proof fn lemma_after_first_unique(
    a_more: Seq<char>,
    b_more: Seq<char>,
    a_last: bool,
    b_last: bool,
    close: char,
    a_rest: Seq<char>,
    b_rest: Seq<char>,
)
    requires
        close != ',',
        after_first(a_more, a_last, close, a_rest) == after_first(b_more, b_last, close, b_rest),
    ensures
        a_last == b_last,
        a_last ==> a_rest == b_rest,
        !a_last ==> a_more + seq![close] + a_rest == b_more + seq![close] + b_rest,
{
    let a = after_first(a_more, a_last, close, a_rest);
    let b = after_first(b_more, b_last, close, b_rest);
    assert(a[0] == if a_last { close } else { ',' });
    assert(b[0] == if b_last { close } else { ',' });
    if a_last {
        lemma_same_tail(seq![close], a_rest, b_rest);
    } else {
        let a_tail = a_more + seq![close] + a_rest;
        let b_tail = b_more + seq![close] + b_rest;
        assert(a =~= seq![','] + a_tail);
        assert(b =~= seq![','] + b_tail);
        lemma_same_tail(seq![','], a_tail, b_tail);
    }
}

/// A document can be read in one way only: where two written values, each followed by what
/// closes a value, are the same text, the values are the same and so is what follows.
pub proof fn lemma_render_unique(a: Json, b: Json, a_rest: Seq<char>, b_rest: Seq<char>)
    requires
        render(a) + a_rest == render(b) + b_rest,
        closes_value(a_rest),
        closes_value(b_rest),
    ensures
        a == b,
        a_rest == b_rest,
    decreases a,
{
    lemma_render_first(a);
    lemma_render_first(b);
    assert((render(a) + a_rest)[0] == render(a)[0]);
    assert((render(b) + b_rest)[0] == render(b)[0]);
    match (a, b) {
        (Json::Number(m), Json::Number(n)) => {
            lemma_decimal_unique(m, n, a_rest, b_rest);
        },
        (Json::Text(s), Json::Text(t)) => {
            lemma_quoted_unique(s, t, a_rest, b_rest);
        },
        (Json::List(xs), Json::List(ys)) => {
            let a_tail = render_items(xs) + seq![']'] + a_rest;
            let b_tail = render_items(ys) + seq![']'] + b_rest;
            assert(render(a) + a_rest =~= seq!['['] + a_tail);
            assert(render(b) + b_rest =~= seq!['['] + b_tail);
            lemma_same_tail(seq!['['], a_tail, b_tail);
            lemma_items_unique(xs, ys, a_rest, b_rest);
        },
        (Json::Object(xs), Json::Object(ys)) => {
            let a_tail = render_members(xs) + seq!['}'] + a_rest;
            let b_tail = render_members(ys) + seq!['}'] + b_rest;
            assert(render(a) + a_rest =~= seq!['{'] + a_tail);
            assert(render(b) + b_rest =~= seq!['{'] + b_tail);
            lemma_same_tail(seq!['{'], a_tail, b_tail);
            lemma_members_unique(xs, ys, a_rest, b_rest);
        },
        _ => {
            assert(a == b);
            lemma_same_tail(render(a), a_rest, b_rest);
        },
    }
}

proof fn lemma_items_unique(xs: Seq<Json>, ys: Seq<Json>, x_rest: Seq<char>, y_rest: Seq<char>)
    requires
        render_items(xs) + seq![']'] + x_rest == render_items(ys) + seq![']'] + y_rest,
    ensures
        xs == ys,
        x_rest == y_rest,
    decreases xs,
{
    let x_whole = render_items(xs) + seq![']'] + x_rest;
    let y_whole = render_items(ys) + seq![']'] + y_rest;
    if xs.len() == 0 || ys.len() == 0 {
        if xs.len() > 0 {
            lemma_render_first(xs[0]);
            assert(x_whole[0] == render(xs[0])[0]);
            assert(y_whole[0] == ']');
        }
        if ys.len() > 0 {
            lemma_render_first(ys[0]);
            assert(y_whole[0] == render(ys[0])[0]);
            assert(x_whole[0] == ']');
        }
        assert(xs =~= ys);
        lemma_same_tail(render_items(xs) + seq![']'], x_rest, y_rest);
    } else {
        let xs1 = xs.subrange(1, xs.len() as int);
        let ys1 = ys.subrange(1, ys.len() as int);
        let x_tail = after_first(render_items(xs1), xs.len() == 1, ']', x_rest);
        let y_tail = after_first(render_items(ys1), ys.len() == 1, ']', y_rest);
        assert(x_whole =~= render(xs[0]) + x_tail);
        assert(y_whole =~= render(ys[0]) + y_tail);
        lemma_render_unique(xs[0], ys[0], x_tail, y_tail);
        lemma_after_first_unique(
            render_items(xs1),
            render_items(ys1),
            xs.len() == 1,
            ys.len() == 1,
            ']',
            x_rest,
            y_rest,
        );
        if xs.len() > 1 {
            lemma_items_unique(xs1, ys1, x_rest, y_rest);
        }
        assert(xs =~= seq![xs[0]] + xs1);
        assert(ys =~= seq![ys[0]] + ys1);
    }
}

proof fn lemma_members_unique(
    xs: Seq<(Seq<char>, Json)>,
    ys: Seq<(Seq<char>, Json)>,
    x_rest: Seq<char>,
    y_rest: Seq<char>,
)
    requires
        render_members(xs) + seq!['}'] + x_rest == render_members(ys) + seq!['}'] + y_rest,
    ensures
        xs == ys,
        x_rest == y_rest,
    decreases xs,
{
    let x_whole = render_members(xs) + seq!['}'] + x_rest;
    let y_whole = render_members(ys) + seq!['}'] + y_rest;
    if xs.len() == 0 || ys.len() == 0 {
        if xs.len() > 0 {
            assert(x_whole[0] == '"');
            assert(y_whole[0] == '}');
        }
        if ys.len() > 0 {
            assert(y_whole[0] == '"');
            assert(x_whole[0] == '}');
        }
        assert(xs =~= ys);
        lemma_same_tail(render_members(xs) + seq!['}'], x_rest, y_rest);
    } else {
        let xs1 = xs.subrange(1, xs.len() as int);
        let ys1 = ys.subrange(1, ys.len() as int);
        let x_tail = after_first(render_members(xs1), xs.len() == 1, '}', x_rest);
        let y_tail = after_first(render_members(ys1), ys.len() == 1, '}', y_rest);
        let x_value = render(xs[0].1) + x_tail;
        let y_value = render(ys[0].1) + y_tail;
        assert(x_whole =~= quoted(xs[0].0) + (seq![':'] + x_value));
        assert(y_whole =~= quoted(ys[0].0) + (seq![':'] + y_value));
        lemma_quoted_unique(xs[0].0, ys[0].0, seq![':'] + x_value, seq![':'] + y_value);
        lemma_same_tail(seq![':'], x_value, y_value);
        lemma_render_unique(xs[0].1, ys[0].1, x_tail, y_tail);
        lemma_after_first_unique(
            render_members(xs1),
            render_members(ys1),
            xs.len() == 1,
            ys.len() == 1,
            '}',
            x_rest,
            y_rest,
        );
        if xs.len() > 1 {
            lemma_members_unique(xs1, ys1, x_rest, y_rest);
        }
        assert(xs =~= seq![xs[0]] + xs1);
        assert(ys =~= seq![ys[0]] + ys1);
    }
}

/// `serde_json::Error`, carried as it is.
#[verifier::external_type_specification]
#[verifier::external_body]
pub struct ExJsonError(serde_json::Error);

/// Calls `serde_json::to_string` on a string. It succeeds on every string: serializing fails
/// only where a `Serialize` impl refuses or a map has keys that are no strings. It puts the
/// string in double quotes, writes `"`, `\` and the characters below U+0020 as escapes, the
/// latter with lowercase digits where they have no short form, and leaves every other character
/// as it is.
#[verifier::external_body]
fn encode_text(value: &str) -> (json: Result<String, serde_json::Error>)
    ensures
        json is Ok,
        json->Ok_0@ == quoted(value@),
{
    serde_json::to_string(value)
}

/// Calls `serde_json::to_string` on an unsigned integer. It succeeds on every integer and writes
/// it in decimal.
#[verifier::external_body]
fn encode_number(value: u64) -> (json: Result<String, serde_json::Error>)
    ensures
        json is Ok,
        json->Ok_0@ == text::decimal(value as nat),
{
    serde_json::to_string(&value)
}

/// Writes a text as a JSON string.
pub fn text_json(value: &str) -> (json: String)
    ensures
        json@ == render(Json::Text(value@)),
{
    encode_text(value).unwrap()
}

/// Writes a number as JSON.
pub fn number_json(value: u64) -> (json: String)
    ensures
        json@ == render(Json::Number(value as nat)),
{
    encode_number(value).unwrap()
}

/// Writes a flag as JSON.
pub fn flag_json(value: bool) -> (json: String)
    ensures
        json@ == render(Json::Flag(value)),
{
    proof {
        reveal_strlit("true");
        reveal_strlit("false");
    }
    let json = if value { "true".to_owned() } else { "false".to_owned() };
    assert(json@ =~= render(Json::Flag(value)));
    json
}

/// Writes the JSON null.
pub fn null_json() -> (json: String)
    ensures
        json@ == render(Json::Null),
{
    proof {
        reveal_strlit("null");
    }
    let json = "null".to_owned();
    assert(json@ =~= render(Json::Null));
    json
}

/// A list of texts as a JSON list.
pub open spec fn text_list(texts: Seq<Seq<char>>) -> Json {
    Json::List(texts.map_values(|value: Seq<char>| Json::Text(value)))
}

/// Writes a list of texts as a JSON list.
pub fn list_json(items: &Vec<String>) -> (json: String)
    ensures
        json@ == render(text_list(items@.map_values(|item: String| item@))),
{
    let ghost values = items@.map_values(|item: String| item@).map_values(
        |value: Seq<char>| Json::Text(value),
    );
    let mut json = String::new();
    json.push('[');
    let mut i: usize = 0;
    assert(values.subrange(0, values.len() as int) =~= values);
    assert(json@ =~= seq!['[']);
    while i < items.len()
        invariant
            i <= items.len(),
            values == items@.map_values(|item: String| item@).map_values(
                |value: Seq<char>| Json::Text(value),
            ),
            json@ + (if 0 < i < items.len() {
                seq![',']
            } else {
                seq![]
            }) + render_items(values.subrange(i as int, values.len() as int)) == seq!['[']
                + render_items(values),
        decreases items.len() - i,
    {
        if i > 0 {
            json.push(',');
        }
        let item = text_json(items[i].as_str());
        json.append(item.as_str());
        let ghost left = values.subrange(i as int, values.len() as int);
        assert(left[0] == Json::Text(items[i as int]@));
        assert(left.subrange(1, left.len() as int) =~= values.subrange(
            i + 1,
            values.len() as int,
        ));
        i += 1;
        assert(json@ + (if i < items.len() {
            seq![',']
        } else {
            seq![]
        }) + render_items(values.subrange(i as int, values.len() as int)) =~= seq!['[']
            + render_items(values));
    }
    json.push(']');
    assert(json@ =~= seq!['['] + render_items(values) + seq![']']);
    json
}

/// The members of an object, each a name and its value as written, separated by commas.
pub open spec fn framed(members: Seq<(Seq<char>, Seq<char>)>) -> Seq<char>
    decreases members.len(),
{
    if members.len() == 0 {
        seq![]
    } else if members.len() == 1 {
        quoted(members[0].0) + seq![':'] + members[0].1
    } else {
        quoted(members[0].0) + seq![':'] + members[0].1 + seq![','] + framed(members.drop_first())
    }
}

/// An object whose values are written already.
pub open spec fn framed_object(members: Seq<(Seq<char>, Seq<char>)>) -> Seq<char> {
    seq!['{'] + framed(members) + seq!['}']
}

/// Framing written values writes the object of those values.
pub proof fn lemma_framed_object(
    members: Seq<(Seq<char>, Json)>,
    written: Seq<(Seq<char>, Seq<char>)>,
)
    requires
        written.len() == members.len(),
        forall|i: int|
            0 <= i < members.len() ==> #[trigger] written[i] == (
                members[i].0,
                render(members[i].1),
            ),
    ensures
        framed_object(written) == render(Json::Object(members)),
{
    lemma_framed(members, written);
}

proof fn lemma_framed(members: Seq<(Seq<char>, Json)>, written: Seq<(Seq<char>, Seq<char>)>)
    requires
        written.len() == members.len(),
        forall|i: int|
            0 <= i < members.len() ==> #[trigger] written[i] == (
                members[i].0,
                render(members[i].1),
            ),
    ensures
        framed(written) == render_members(members),
    decreases members.len(),
{
    if members.len() > 0 {
        assert(written[0] == (members[0].0, render(members[0].1)));
    }
    if members.len() > 1 {
        let fewer = members.subrange(1, members.len() as int);
        assert forall|i: int| 0 <= i < fewer.len() implies #[trigger] written.drop_first()[i] == (
            fewer[i].0,
            render(fewer[i].1),
        ) by {
            assert(written[i + 1] == (members[i + 1].0, render(members[i + 1].1)));
        }
        lemma_framed(fewer, written.drop_first());
    }
}

/// A name and a value as texts.
pub open spec fn text_pair(pair: (String, String)) -> (Seq<char>, Seq<char>) {
    (pair.0@, pair.1@)
}

/// Frames written values as a JSON object, in the order given.
pub fn object_json(members: &Vec<(String, String)>) -> (json: String)
    ensures
        json@ == framed_object(members@.map_values(|member: (String, String)| text_pair(member))),
{
    let ghost pairs = members@.map_values(|member: (String, String)| text_pair(member));
    let mut json = String::new();
    json.push('{');
    let mut i: usize = 0;
    assert(pairs.skip(0) =~= pairs);
    assert(json@ =~= seq!['{']);
    while i < members.len()
        invariant
            i <= members.len(),
            pairs == members@.map_values(|member: (String, String)| text_pair(member)),
            json@ + (if 0 < i < members.len() {
                seq![',']
            } else {
                seq![]
            }) + framed(pairs.skip(i as int)) == seq!['{'] + framed(pairs),
        decreases members.len() - i,
    {
        if i > 0 {
            json.push(',');
        }
        let member = &members[i];
        let name = text_json(member.0.as_str());
        json.append(name.as_str());
        json.push(':');
        json.append(member.1.as_str());
        let ghost left = pairs.skip(i as int);
        assert(left[0] == text_pair(members[i as int]));
        assert(left.drop_first() =~= pairs.skip(i + 1));
        i += 1;
        assert(json@ + (if i < members.len() {
            seq![',']
        } else {
            seq![]
        }) + framed(pairs.skip(i as int)) =~= seq!['{'] + framed(pairs));
    }
    json.push('}');
    assert(json@ =~= framed_object(pairs));
    json
}

} // verus!
