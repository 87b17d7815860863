use vstd::prelude::*;

verus! {

/// The event topic a frontend subscribes to.
#[derive(Clone, Copy, Debug, PartialEq, Eq, Structural)]
pub enum Topic {
    Profile,
    Routing,
}

/// An event as it goes out on the wire: its topic, its name, and its data as
/// compact JSON text.
#[derive(Clone, Debug, PartialEq, Eq)]
pub struct WireEvent {
    pub topic: Topic,
    pub event: String,
    pub data: String,
}

/// The event a profile mutation announces.
#[derive(Clone, Debug, PartialEq, Eq)]
pub enum EffectEvent {
    /// A profile was made active; carries its name.
    ProfileUsed(String),
    /// Profiles were reloaded; carries the names that were loaded.
    ProfileReloaded(Vec<String>),
    /// A routing or per-app rule changed.
    RouteRuleChanged,
}

#[verifier::external_type_specification]
#[verifier::external_body]
pub struct ExJsonError(serde_json::Error);

/// Lower-case hexadecimal digit of `n`, for `0 <= n < 16`.
pub open spec fn hex_digit(n: int) -> char {
    seq!['0', '1', '2', '3', '4', '5', '6', '7', '8', '9', 'a', 'b', 'c', 'd', 'e', 'f'][n]
}

/// How a JSON string literal writes one character: a quote and a backslash are
/// escaped with a backslash; backspace, tab, line feed, form feed and carriage
/// return get their short escapes; other control characters below U+0020 are
/// written `\u00XX` in lower-case hex; every other character stands as it is.
pub open spec fn json_escape_char(c: char) -> Seq<char> {
    if c == '"' {
        seq!['\\', '"']
    } else if c == '\\' {
        seq!['\\', '\\']
    } else if c == '\x08' {
        seq!['\\', 'b']
    } else if c == '\t' {
        seq!['\\', 't']
    } else if c == '\n' {
        seq!['\\', 'n']
    } else if c == '\x0C' {
        seq!['\\', 'f']
    } else if c == '\r' {
        seq!['\\', 'r']
    } else if (c as int) < 0x20 {
        seq!['\\', 'u', '0', '0', hex_digit((c as int) / 16), hex_digit((c as int) % 16)]
    } else {
        seq![c]
    }
}

/// The escaped characters of a JSON string literal.
pub open spec fn json_escaped(s: Seq<char>) -> Seq<char>
    decreases s.len(),
{
    if s.len() == 0 {
        Seq::empty()
    } else {
        json_escaped(s.drop_last()) + json_escape_char(s.last())
    }
}

/// The JSON string literal (quotes included) that `serde_json` writes for a string.
pub open spec fn json_string_literal(s: Seq<char>) -> Seq<char> {
    seq!['"'] + json_escaped(s) + seq!['"']
}

/// Calls `serde_json::to_string` on a string slice. The contract claims that the
/// call succeeds (the string is written into a `Vec`, which never fails) and that
/// the result is the JSON string literal of the slice, escaped as
/// `json_escape_char` says.
#[verifier::external_body]
fn encode_json_str(s: &str) -> (r: Result<String, serde_json::Error>)
    ensures
        r is Ok,
        r->Ok_0@ == json_string_literal(s@),
{
    serde_json::to_string(s)
}

/// `parts` joined by commas.
pub open spec fn join_with_commas(parts: Seq<Seq<char>>) -> Seq<char>
    decreases parts.len(),
{
    if parts.len() == 0 {
        Seq::empty()
    } else if parts.len() == 1 {
        parts[0]
    } else {
        join_with_commas(parts.drop_last()) + ","@ + parts.last()
    }
}

/// The characters of each string of `v`.
pub open spec fn string_views(v: Seq<String>) -> Seq<Seq<char>> {
    v.map_values(|s: String| s@)
}

/// The JSON string literal of each name of `names`.
pub open spec fn json_literals(names: Seq<String>) -> Seq<Seq<char>> {
    names.map_values(|s: String| json_string_literal(s@))
}

/// The topic an effect event is published on.
pub open spec fn topic_of(e: EffectEvent) -> Topic {
    match e {
        EffectEvent::RouteRuleChanged => Topic::Routing,
        _ => Topic::Profile,
    }
}

/// The name an effect event is published under.
pub open spec fn event_name_of(e: EffectEvent) -> Seq<char> {
    match e {
        EffectEvent::ProfileUsed(_) => "used"@,
        EffectEvent::ProfileReloaded(_) => "reloaded"@,
        EffectEvent::RouteRuleChanged => "rule_changed"@,
    }
}

/// `{"name":<literal>}` for an encoded profile name.
pub open spec fn name_payload_json(encoded_name: Seq<char>) -> Seq<char> {
    "{\"name\":"@ + encoded_name + "}"@
}

/// `{"loaded":[<literal>,...]}` for encoded profile names.
pub open spec fn loaded_payload_json(encoded_names: Seq<Seq<char>>) -> Seq<char> {
    "{\"loaded\":["@ + join_with_commas(encoded_names) + "]}"@
}

/// The JSON data an effect event carries.
pub open spec fn payload_json(e: EffectEvent) -> Seq<char> {
    match e {
        EffectEvent::ProfileUsed(name) => name_payload_json(json_string_literal(name@)),
        EffectEvent::ProfileReloaded(loaded) => loaded_payload_json(json_literals(loaded@)),
        EffectEvent::RouteRuleChanged => "{}"@,
    }
}

/// `w` is the wire form of `e`.
pub open spec fn wire_matches(w: WireEvent, e: EffectEvent) -> bool {
    &&& w.topic == topic_of(e)
    &&& w.event@ == event_name_of(e)
    &&& w.data@ == payload_json(e)
}

/// Frames an encoded profile name as the data of a `used` event.
pub fn name_payload(encoded_name: &str) -> (data: String)
    ensures
        data@ == name_payload_json(encoded_name@),
{
    let mut data = String::from_str("{\"name\":");
    data.append(encoded_name);
    data.append("}");
    data
}

/// Frames encoded profile names as the data of a `reloaded` event.
pub fn loaded_payload(encoded_names: &Vec<String>) -> (data: String)
    ensures
        data@ == loaded_payload_json(string_views(encoded_names@)),
{
    let mut body = String::new();
    let mut i: usize = 0;
    while i < encoded_names.len()
        invariant
            i <= encoded_names@.len(),
            body@ == join_with_commas(string_views(encoded_names@.take(i as int))),
        decreases encoded_names@.len() - i,
    {
        let ghost before = string_views(encoded_names@.take(i as int));
        let ghost after = string_views(encoded_names@.take(i as int + 1));
        assert(after.drop_last() =~= before);
        assert(after.last() == encoded_names@[i as int]@);
        if i > 0 {
            body.append(",");
        }
        body.append(encoded_names[i].as_str());
        i = i + 1;
    }
    assert(encoded_names@.take(i as int) =~= encoded_names@);
    let mut data = String::from_str("{\"loaded\":[");
    data.append(body.as_str());
    data.append("]}");
    data
}

/// Encodes every name as a JSON string literal, in order.
fn encode_names(names: &Vec<String>) -> (r: Vec<String>)
    ensures
        string_views(r@) == json_literals(names@),
{
    let mut out: Vec<String> = Vec::new();
    let mut i: usize = 0;
    while i < names.len()
        invariant
            i <= names@.len(),
            string_views(out@) =~= json_literals(names@.take(i as int)),
        decreases names@.len() - i,
    {
        let enc = encode_json_str(names[i].as_str()).unwrap();
        out.push(enc);
        assert(json_literals(names@.take(i as int + 1)) =~= json_literals(names@.take(i as int)).push(
            json_string_literal(names@[i as int]@),
        ));
        assert(string_views(out@) =~= json_literals(names@.take(i as int + 1)));
        i = i + 1;
    }
    assert(names@.take(i as int) =~= names@);
    out
}

/// The wire form of an effect event.
pub fn wire_event(e: &EffectEvent) -> (w: WireEvent)
    ensures
        wire_matches(w, *e),
{
    match e {
        EffectEvent::ProfileUsed(name) => {
            let enc = encode_json_str(name.as_str()).unwrap();
            WireEvent {
                topic: Topic::Profile,
                event: String::from_str("used"),
                data: name_payload(enc.as_str()),
            }
        },
        EffectEvent::ProfileReloaded(loaded) => {
            let encoded = encode_names(loaded);
            WireEvent {
                topic: Topic::Profile,
                event: String::from_str("reloaded"),
                data: loaded_payload(&encoded),
            }
        },
        EffectEvent::RouteRuleChanged => WireEvent {
            topic: Topic::Routing,
            event: String::from_str("rule_changed"),
            data: String::from_str("{}"),
        },
    }
}


/// The value of a lower-case hexadecimal digit.
pub open spec fn hex_value(c: char) -> int {
    if (c as int) <= ('9' as int) {
        (c as int) - ('0' as int)
    } else {
        (c as int) - ('a' as int) + 10
    }
}

/// Reads back the characters of the inside of a JSON string literal: each
/// backslash escape stands for the character it escapes, every other character
/// for itself.
pub open spec fn json_unescape(t: Seq<char>) -> Seq<char>
    decreases t.len(),
{
    if t.len() == 0 {
        Seq::empty()
    } else if t[0] == '\\' && t.len() >= 2 {
        let e = t[1];
        if e == 'u' && t.len() >= 6 {
            seq![((hex_value(t[4]) * 16 + hex_value(t[5])) as char)] + json_unescape(t.skip(6))
        } else if e == 'b' {
            seq!['\x08'] + json_unescape(t.skip(2))
        } else if e == 't' {
            seq!['\t'] + json_unescape(t.skip(2))
        } else if e == 'n' {
            seq!['\n'] + json_unescape(t.skip(2))
        } else if e == 'f' {
            seq!['\x0C'] + json_unescape(t.skip(2))
        } else if e == 'r' {
            seq!['\r'] + json_unescape(t.skip(2))
        } else {
            seq![e] + json_unescape(t.skip(2))
        }
    } else {
        seq![t[0]] + json_unescape(t.skip(1))
    }
}

proof fn lemma_hex_round_trip(d: int)
    requires
        0 <= d < 16,
    ensures
        hex_value(hex_digit(d)) == d,
{
    let digits = seq!['0', '1', '2', '3', '4', '5', '6', '7', '8', '9', 'a', 'b', 'c', 'd', 'e', 'f'];
    assert(hex_digit(d) == digits[d]);
    if d == 0 { assert(digits[0] == '0'); }
    else if d == 1 { assert(digits[1] == '1'); }
    else if d == 2 { assert(digits[2] == '2'); }
    else if d == 3 { assert(digits[3] == '3'); }
    else if d == 4 { assert(digits[4] == '4'); }
    else if d == 5 { assert(digits[5] == '5'); }
    else if d == 6 { assert(digits[6] == '6'); }
    else if d == 7 { assert(digits[7] == '7'); }
    else if d == 8 { assert(digits[8] == '8'); }
    else if d == 9 { assert(digits[9] == '9'); }
    else if d == 10 { assert(digits[10] == 'a'); }
    else if d == 11 { assert(digits[11] == 'b'); }
    else if d == 12 { assert(digits[12] == 'c'); }
    else if d == 13 { assert(digits[13] == 'd'); }
    else if d == 14 { assert(digits[14] == 'e'); }
    else { assert(digits[15] == 'f'); }
}

proof fn lemma_unescape_char(c: char, rest: Seq<char>)
    ensures
        json_unescape(json_escape_char(c) + rest) == seq![c] + json_unescape(rest),
{
    let t = json_escape_char(c) + rest;
    if c == '"' || c == '\\' || c == '\x08' || c == '\t' || c == '\n' || c == '\x0C' || c == '\r' {
        assert(t.skip(2) =~= rest);
        assert(t[0] == '\\');
    } else if (c as int) < 0x20 {
        let v = c as int;
        lemma_hex_round_trip(v / 16);
        lemma_hex_round_trip(v % 16);
        assert(t[1] == 'u');
        assert(t[4] == hex_digit(v / 16));
        assert(t[5] == hex_digit(v % 16));
        assert(t.skip(6) =~= rest);
        assert((v / 16) * 16 + v % 16 == v);
        assert((v as char) == c);
    } else {
        assert(t.skip(1) =~= rest);
        assert(t[0] == c);
    }
}

proof fn lemma_escaped_concat(a: Seq<char>, b: Seq<char>)
    ensures
        json_escaped(a + b) == json_escaped(a) + json_escaped(b),
    decreases b.len(),
{
    if b.len() == 0 {
        assert(a + b =~= a);
        assert(json_escaped(a) + json_escaped(b) =~= json_escaped(a));
    } else {
        lemma_escaped_concat(a, b.drop_last());
        assert((a + b).drop_last() =~= a + b.drop_last());
        assert((a + b).last() == b.last());
        assert(json_escaped(a + b) =~= json_escaped(a) + json_escaped(b));
    }
}

/// Reading back what `serde_json` writes inside a string literal gives the
/// original characters, all of them and in order: the encoding loses nothing.
pub proof fn lemma_json_escape_round_trip(s: Seq<char>)
    ensures
        json_unescape(json_escaped(s)) == s,
    decreases s.len(),
{
    if s.len() > 0 {
        let first = s[0];
        let rest = s.drop_first();
        assert(s =~= seq![first] + rest);
        lemma_escaped_concat(seq![first], rest);
        assert(seq![first].drop_last() =~= Seq::<char>::empty());
        assert(seq![first].last() == first);
        assert(json_escaped(Seq::<char>::empty()) =~= Seq::<char>::empty());
        assert(json_escaped(seq![first]) == json_escaped(seq![first].drop_last()) + json_escape_char(
            first,
        ));
        assert(json_escaped(seq![first]) =~= json_escape_char(first));
        lemma_unescape_char(first, json_escaped(rest));
        lemma_json_escape_round_trip(rest);
        assert(seq![first] + rest =~= s);
    }
}

/// The data of a `used` event is `{"name":"<escaped name>"}` with the whole
/// name escaped, and reading back its name field gives the whole name.
pub proof fn lemma_used_event_carries_the_whole_name(n: String)
    ensures
        payload_json(EffectEvent::ProfileUsed(n)) == seq!['{', '"', 'n', 'a', 'm', 'e', '"', ':', '"']
            + json_escaped(n@) + seq!['"', '}'],
        payload_json(EffectEvent::ProfileUsed(n)).len() >= 11,
        json_unescape(
            payload_json(EffectEvent::ProfileUsed(n)).subrange(
                9,
                payload_json(EffectEvent::ProfileUsed(n)).len() - 2,
            ),
        ) == n@,
{
    reveal_strlit("{\"name\":");
    reveal_strlit("}");
    let pre = seq!['{', '"', 'n', 'a', 'm', 'e', '"', ':', '"'];
    let post = seq!['"', '}'];
    assert("{\"name\":"@ =~= seq!['{', '"', 'n', 'a', 'm', 'e', '"', ':']);
    assert("}"@ =~= seq!['}']);
    let d = payload_json(EffectEvent::ProfileUsed(n));
    assert(d =~= pre + json_escaped(n@) + post);
    assert(d.subrange(9, d.len() - 2) =~= json_escaped(n@));
    lemma_json_escape_round_trip(n@);
}

/// The names of a `reloaded` event are encoded one literal per loaded name, in
/// order; each literal is the whole name escaped and quoted, and reads back to
/// that name.
pub proof fn lemma_reloaded_event_lists_every_name(loaded: Seq<String>)
    ensures
        json_literals(loaded).len() == loaded.len(),
        forall|i: int|
            0 <= i < loaded.len() ==> {
                &&& #[trigger] json_literals(loaded)[i] == seq!['"'] + json_escaped(loaded[i]@)
                    + seq!['"']
                &&& json_unescape(json_literals(loaded)[i].subrange(1, json_literals(loaded)[i].len() - 1))
                    == loaded[i]@
            },
{
    assert forall|i: int| 0 <= i < loaded.len() implies {
        &&& #[trigger] json_literals(loaded)[i] == seq!['"'] + json_escaped(loaded[i]@) + seq!['"']
        &&& json_unescape(json_literals(loaded)[i].subrange(1, json_literals(loaded)[i].len() - 1))
            == loaded[i]@
    } by {
        let l = json_literals(loaded)[i];
        assert(l.subrange(1, l.len() - 1) =~= json_escaped(loaded[i]@));
        lemma_json_escape_round_trip(loaded[i]@);
    }
}


/// How many characters of `t` lie inside a JSON string literal whose opening
/// quote was just read: up to the first quote that is not escaped.
pub open spec fn literal_body_len(t: Seq<char>) -> nat
    decreases t.len(),
{
    if t.len() == 0 || t[0] == '"' {
        0
    } else if t[0] == '\\' && t.len() >= 2 {
        2 + literal_body_len(t.skip(2))
    } else {
        1 + literal_body_len(t.skip(1))
    }
}

/// Reads a comma-separated list of JSON string literals back into the strings
/// they stand for.
pub open spec fn parse_literal_list(t: Seq<char>) -> Seq<Seq<char>>
    decreases t.len(),
{
    if t.len() < 2 {
        Seq::empty()
    } else {
        let n = literal_body_len(t.skip(1));
        if n + 2 > t.len() {
            Seq::empty()
        } else {
            let name = json_unescape(t.subrange(1, 1 + n as int));
            let after = t.skip(n as int + 2);
            if after.len() > 0 && after[0] == ',' {
                seq![name] + parse_literal_list(after.skip(1))
            } else {
                seq![name]
            }
        }
    }
}

proof fn lemma_body_len_char(c: char, rest: Seq<char>)
    ensures
        literal_body_len(json_escape_char(c) + rest) == json_escape_char(c).len()
            + literal_body_len(rest),
{
    let t = json_escape_char(c) + rest;
    if c == '"' || c == '\\' || c == '\x08' || c == '\t' || c == '\n' || c == '\x0C' || c == '\r' {
        assert(t.skip(2) =~= rest);
    } else if (c as int) < 0x20 {
        let v = c as int;
        let d1 = hex_digit(v / 16);
        let d2 = hex_digit(v % 16);
        lemma_hex_round_trip(v / 16);
        lemma_hex_round_trip(v % 16);
        let t2 = t.skip(2);
        assert(t[0] == '\\' && t[1] == 'u');
        assert(literal_body_len(t) == 2 + literal_body_len(t2));
        assert(t2 =~= seq!['0', '0', d1, d2] + rest);
        let t3 = t2.skip(1);
        let t4 = t3.skip(1);
        let t5 = t4.skip(1);
        let t6 = t5.skip(1);
        assert(t3 =~= seq!['0', d1, d2] + rest);
        assert(t4 =~= seq![d1, d2] + rest);
        assert(t5 =~= seq![d2] + rest);
        assert(t6 =~= rest);
        assert(literal_body_len(t2) == 1 + literal_body_len(t3));
        assert(literal_body_len(t3) == 1 + literal_body_len(t4));
        assert(d1 != '"' && d1 != '\\') by {
            if d1 == '"' || d1 == '\\' {
                assert(hex_value(d1) < 0 || hex_value(d1) >= 16);
            }
        }
        assert(d2 != '"' && d2 != '\\') by {
            if d2 == '"' || d2 == '\\' {
                assert(hex_value(d2) < 0 || hex_value(d2) >= 16);
            }
        }
        assert(literal_body_len(t4) == 1 + literal_body_len(t5));
        assert(literal_body_len(t5) == 1 + literal_body_len(t6));
    } else {
        assert(t.skip(1) =~= rest);
    }
}

proof fn lemma_body_len_escaped(s: Seq<char>, rest: Seq<char>)
    ensures
        literal_body_len(json_escaped(s) + rest) == json_escaped(s).len() + literal_body_len(rest),
    decreases s.len(),
{
    if s.len() > 0 {
        let first = s[0];
        let tail = s.drop_first();
        assert(s =~= seq![first] + tail);
        lemma_escaped_concat(seq![first], tail);
        assert(seq![first].drop_last() =~= Seq::<char>::empty());
        assert(seq![first].last() == first);
        assert(json_escaped(Seq::<char>::empty()) =~= Seq::<char>::empty());
        assert(json_escaped(seq![first]) == json_escaped(seq![first].drop_last()) + json_escape_char(
            first,
        ));
        assert(json_escaped(seq![first]) =~= json_escape_char(first));
        lemma_body_len_escaped(tail, rest);
        assert(json_escaped(s) + rest =~= json_escape_char(first) + (json_escaped(tail) + rest));
        lemma_body_len_char(first, json_escaped(tail) + rest);
    } else {
        assert(json_escaped(s) + rest =~= rest);
    }
}

proof fn lemma_join_front(parts: Seq<Seq<char>>)
    requires
        parts.len() >= 2,
    ensures
        join_with_commas(parts) == parts[0] + ","@ + join_with_commas(parts.drop_first()),
    decreases parts.len(),
{
    if parts.len() > 2 {
        lemma_join_front(parts.drop_last());
        assert(parts.drop_last().drop_first() =~= parts.drop_first().drop_last());
        assert(parts.drop_first().last() == parts.last());
        assert(parts.drop_last()[0] == parts[0]);
        assert(join_with_commas(parts.drop_first()) == join_with_commas(
            parts.drop_first().drop_last(),
        ) + ","@ + parts.drop_first().last());
        assert(join_with_commas(parts) =~= parts[0] + ","@ + join_with_commas(parts.drop_first()));
    } else {
        assert(join_with_commas(parts.drop_last()) == parts.drop_last()[0]);
        assert(join_with_commas(parts.drop_first()) == parts.drop_first()[0]);
        assert(parts.drop_first().len() == 1);
        assert(parts.drop_last().len() == 1);
        assert(parts.drop_last()[0] == parts[0]);
        assert(parts.drop_first()[0] == parts.last());
    }
}

proof fn lemma_literal_then(s: Seq<char>, rest: Seq<char>)
    requires
        rest.len() == 0 || rest[0] == ',',
    ensures
        ({
            let t = seq!['"'] + json_escaped(s) + seq!['"'] + rest;
            let n = literal_body_len(t.skip(1));
            &&& n == json_escaped(s).len()
            &&& n + 2 <= t.len()
            &&& json_unescape(t.subrange(1, 1 + n as int)) == s
            &&& t.skip(n as int + 2) == rest
        }),
{
    let t = seq!['"'] + json_escaped(s) + seq!['"'] + rest;
    let after_quote = seq!['"'] + rest;
    assert(t.skip(1) =~= json_escaped(s) + after_quote);
    lemma_body_len_escaped(s, after_quote);
    assert(literal_body_len(after_quote) == 0);
    let n = json_escaped(s).len();
    assert(t.subrange(1, 1 + n as int) =~= json_escaped(s));
    lemma_json_escape_round_trip(s);
    assert(t.skip(n as int + 2) =~= rest);
}

proof fn lemma_parse_literals(v: Seq<String>)
    ensures
        parse_literal_list(join_with_commas(json_literals(v))) == string_views(v),
    decreases v.len(),
{
    reveal_strlit(",");
    assert(","@ =~= seq![',']);
    let lits = json_literals(v);
    if v.len() == 0 {
        assert(string_views(v) =~= Seq::<Seq<char>>::empty());
    } else if v.len() == 1 {
        let t = join_with_commas(lits);
        assert(t == lits[0]);
        assert(t =~= seq!['"'] + json_escaped(v[0]@) + seq!['"'] + Seq::<char>::empty());
        lemma_literal_then(v[0]@, Seq::empty());
        assert(string_views(v) =~= seq![v[0]@]);
    } else {
        let rest_v = v.drop_first();
        lemma_join_front(lits);
        assert(lits.drop_first() =~= json_literals(rest_v));
        let tail = join_with_commas(json_literals(rest_v));
        let t = join_with_commas(lits);
        let rest = seq![','] + tail;
        assert(t =~= seq!['"'] + json_escaped(v[0]@) + seq!['"'] + rest);
        lemma_literal_then(v[0]@, rest);
        assert(rest.skip(1) =~= tail);
        lemma_parse_literals(rest_v);
        assert(string_views(v) =~= seq![v[0]@] + string_views(rest_v));
    }
}

/// The data of a `reloaded` event is `{"loaded":[...]}` around a list that
/// reads back to exactly the loaded names, all of them and in order.
pub proof fn lemma_reloaded_event_reads_back_every_name(loaded: Vec<String>)
    ensures
        ({
            let d = payload_json(EffectEvent::ProfileReloaded(loaded));
            let pre = seq!['{', '"', 'l', 'o', 'a', 'd', 'e', 'd', '"', ':', '['];
            &&& d.len() >= 13
            &&& d.subrange(0, 11) == pre
            &&& d.subrange(d.len() - 2, d.len() as int) == seq![']', '}']
            &&& parse_literal_list(d.subrange(11, d.len() - 2)) == string_views(loaded@)
        }),
{
    reveal_strlit("{\"loaded\":[");
    reveal_strlit("]}");
    assert("{\"loaded\":["@ =~= seq!['{', '"', 'l', 'o', 'a', 'd', 'e', 'd', '"', ':', '[']);
    assert("]}"@ =~= seq![']', '}']);
    let d = payload_json(EffectEvent::ProfileReloaded(loaded));
    let body = join_with_commas(json_literals(loaded@));
    assert(d =~= seq!['{', '"', 'l', 'o', 'a', 'd', 'e', 'd', '"', ':', '['] + body + seq![']', '}']);
    assert(d.subrange(11, d.len() - 2) =~= body);
    assert(d.subrange(0, 11) =~= seq!['{', '"', 'l', 'o', 'a', 'd', 'e', 'd', '"', ':', '[']);
    assert(d.subrange(d.len() - 2, d.len() as int) =~= seq![']', '}']);
    lemma_parse_literals(loaded@);
}


/// Profile events go out on the profile topic and rule changes on the routing
/// topic, under the names `used`, `reloaded` and `rule_changed`, which a
/// subscriber can tell apart.
pub proof fn lemma_event_topics_and_names(e: EffectEvent)
    ensures
        (topic_of(e) == Topic::Routing) <==> (e is RouteRuleChanged),
        e is ProfileUsed ==> event_name_of(e) == seq!['u', 's', 'e', 'd'],
        e is ProfileReloaded ==> event_name_of(e) == seq!['r', 'e', 'l', 'o', 'a', 'd', 'e', 'd'],
        e is RouteRuleChanged ==> event_name_of(e) == seq![
            'r', 'u', 'l', 'e', '_', 'c', 'h', 'a', 'n', 'g', 'e', 'd',
        ],
{
    reveal_strlit("used");
    reveal_strlit("reloaded");
    reveal_strlit("rule_changed");
    assert("used"@ =~= seq!['u', 's', 'e', 'd']);
    assert("reloaded"@ =~= seq!['r', 'e', 'l', 'o', 'a', 'd', 'e', 'd']);
    assert("rule_changed"@ =~= seq!['r', 'u', 'l', 'e', '_', 'c', 'h', 'a', 'n', 'g', 'e', 'd']);
}

} // verus!
