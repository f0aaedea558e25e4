//! Template rendering: versions and build names substituted into handlebars
//! templates, strictly.
use vstd::prelude::*;

use chrono::Datelike;
use vstd::string::StrSliceExecFns;

use crate::error::Error;
use crate::lock::SingleVersioned;
use crate::text::{digit_char, join, join_spec, push_char, push_text, strings_view};
use crate::version::{split_version, version_tokens};

verus! {

/// What handlebars renders for `template` in strict mode over the JSON
/// document `data_json`; `None` when it reports an error.
pub uninterp spec fn strict_render(template: Seq<char>, data_json: Seq<char>) -> Option<Seq<char>>;

/// The failure that handlebars reports.
#[verifier::external_type_specification]
#[verifier::external_body]
pub struct ExRenderError(handlebars::RenderError);

/// The name in a template that is one placeholder `{{name}}` and nothing else.
pub open spec fn sole_placeholder(t: Seq<char>) -> Option<Seq<char>> {
    if t.len() >= 4 && t[0] == '{' && t[1] == '{' && t[t.len() - 2] == '}' && t[t.len() - 1] == '}' {
        Some(t.subrange(2, t.len() - 2))
    } else {
        None
    }
}

/// A non-empty name of lowercase ASCII letters.
pub open spec fn is_lowercase_name(n: Seq<char>) -> bool {
    n.len() > 0 && forall|i: int| 0 <= i < n.len() ==> 'a' <= #[trigger] n[i] <= 'z'
}

/// Names that handlebars does not read as a field of the data: its built-in
/// helpers, its keywords, `this`, and its literals.
pub open spec fn handlebars_reserved(n: Seq<char>) -> bool {
    ||| n == "if"@ || n == "unless"@ || n == "each"@ || n == "with"@ || n == "lookup"@ || n == "raw"@ || n == "log"@
    ||| n == "eq"@ || n == "ne"@ || n == "gt"@ || n == "gte"@ || n == "lt"@ || n == "lte"@ || n == "and"@ || n == "or"@
    ||| n == "not"@ || n == "len"@ || n == "as"@ || n == "else"@ || n == "this"@ || n == "true"@ || n == "false"@ || n == "null"@
}

/// Relies on `serde_json::from_str` to read the data and on
/// `handlebars::Handlebars::render_template` in strict mode, where a
/// placeholder that the data does not define is an error: a template that is a
/// single `{{name}}`, naming no helper, keyword or literal, fails over the data
/// of a version, whose only fields are `version` and `versions`.
#[verifier::external_body]
fn render_strict(template: &str, data_json: &str) -> (r: Result<String, handlebars::RenderError>)
    ensures
        r is Ok <==> strict_render(template@, data_json@) is Some,
        r matches Ok(s) ==> s@ == strict_render(template@, data_json@)->0,
        (exists|v: Seq<char>| data_json@ == #[trigger] version_json(v)) ==> (sole_placeholder(template@) matches Some(n)
            ==> (is_lowercase_name(n) && !handlebars_reserved(n) && n != "version"@ && n != "versions"@ ==> r is Err)),
{
    let data: serde_json::Value = serde_json::from_str(data_json).map_err(handlebars::RenderErrorReason::SerdeError)?;
    let mut registry = handlebars::Handlebars::new();
    registry.set_strict_mode(true);
    registry.render_template(template, &data)
}

/// The hexadecimal digit for `d < 16`.
pub open spec fn hex_char(d: nat) -> char {
    if d < 10 { digit_char(d) } else if d == 10 { 'a' } else if d == 11 { 'b' } else if d == 12 { 'c' }
    else if d == 13 { 'd' } else if d == 14 { 'e' } else { 'f' }
}

/// A character as it stands inside a JSON string.
pub open spec fn json_char(c: char) -> Seq<char> {
    if c == '"' {
        seq!['\\', '"']
    } else if c == '\\' {
        seq!['\\', '\\']
    } else if (c as u32) < 32 {
        seq!['\\', 'u', '0', '0', hex_char((c as u32 / 16) as nat), hex_char((c as u32 % 16) as nat)]
    } else {
        seq![c]
    }
}

/// A text as a JSON string literal, quotes included.
pub open spec fn json_string(s: Seq<char>) -> Seq<char> {
    seq!['"'] + json_chars(s) + seq!['"']
}

pub open spec fn json_chars(s: Seq<char>) -> Seq<char>
    decreases s.len(),
{
    if s.len() == 0 {
        Seq::empty()
    } else {
        json_chars(s.drop_last()) + json_char(s.last())
    }
}

/// A list of texts as a JSON array.
pub open spec fn json_array(items: Seq<Seq<char>>) -> Seq<char> {
    seq!['['] + join_spec(items.map_values(|t: Seq<char>| json_string(t)), seq![',']) + seq![']']
}

/// The data of a version: `{"version": ..., "versions": [...]}`.
pub open spec fn version_json(version: Seq<char>) -> Seq<char> {
    "{\"version\":"@ + json_string(version) + ",\"versions\":"@ + json_array(version_tokens(version)) + seq!['}']
}

fn hex_digit(d: u32) -> (c: char)
    requires
        d < 16,
    ensures
        c == hex_char(d as nat),
{
    if d == 0 { '0' } else if d == 1 { '1' } else if d == 2 { '2' } else if d == 3 { '3' }
    else if d == 4 { '4' } else if d == 5 { '5' } else if d == 6 { '6' } else if d == 7 { '7' }
    else if d == 8 { '8' } else if d == 9 { '9' } else if d == 10 { 'a' } else if d == 11 { 'b' }
    else if d == 12 { 'c' } else if d == 13 { 'd' } else if d == 14 { 'e' } else { 'f' }
}

/// Appends `s` as a JSON string literal.
pub fn push_json_string(out: &mut String, s: &str)
    ensures
        final(out)@ == old(out)@ + json_string(s@),
{
    push_char(out, '"');
    let n = s.unicode_len();
    let ghost start = out@;
    let mut i: usize = 0;
    while i < n
        invariant
            i <= n == s@.len(),
            out@ == start + json_chars(s@.subrange(0, i as int)),
        decreases n - i,
    {
        let c = s.get_char(i);
        assert(s@.subrange(0, i + 1).drop_last() == s@.subrange(0, i as int));
        if c == '"' {
            push_char(out, '\\');
            push_char(out, '"');
        } else if c == '\\' {
            push_char(out, '\\');
            push_char(out, '\\');
        } else if (c as u32) < 32 {
            push_char(out, '\\');
            push_char(out, 'u');
            push_char(out, '0');
            push_char(out, '0');
            push_char(out, hex_digit(c as u32 / 16));
            push_char(out, hex_digit(c as u32 % 16));
        } else {
            push_char(out, c);
        }
        assert(out@ =~= start + json_chars(s@.subrange(0, i + 1)));
        i += 1;
    }
    assert(s@.subrange(0, i as int) == s@);
    push_char(out, '"');
    assert(out@ =~= old(out)@ + json_string(s@));
}

/// Appends a list of texts as a JSON array.
pub fn push_json_array(out: &mut String, items: &Vec<String>)
    ensures
        final(out)@ == old(out)@ + json_array(strings_view(items@)),
{
    let mut quoted: Vec<String> = Vec::new();
    let mut i: usize = 0;
    while i < items.len()
        invariant
            i <= items.len(),
            quoted@.len() == i,
            forall|j: int| 0 <= j < i ==> (#[trigger] quoted@[j])@ == json_string(items@[j]@),
        decreases items.len() - i,
    {
        let mut q = String::new();
        push_json_string(&mut q, items[i].as_str());
        quoted.push(q);
        i += 1;
    }
    assert(strings_view(quoted@) =~= strings_view(items@).map_values(|t: Seq<char>| json_string(t)));
    push_char(out, '[');
    let body = join(&quoted, ",");
    proof { reveal_strlit(","); }
    assert(","@ == seq![',']);
    push_text(out, body.as_str());
    push_char(out, ']');
    assert(final(out)@ =~= old(out)@ + json_array(strings_view(items@)));
}

/// The data of a version as a JSON object.
pub fn version_data(version: &str) -> (r: String)
    ensures
        r@ == version_json(version@),
{
    let mut r = String::from_str("{\"version\":");
    push_json_string(&mut r, version);
    push_text(&mut r, ",\"versions\":");
    let tokens = split_version(version);
    push_json_array(&mut r, &tokens);
    push_char(&mut r, '}');
    r
}

/// What rendering a template against one version gives.
pub open spec fn render_spec(template: Seq<char>, version: Seq<char>) -> Option<Seq<char>> {
    strict_render(template, version_json(version))
}

/// Renders `template` against `version`: `{{version}}` is the version and
/// `{{versions.[i]}}` its tokens. A placeholder that is not defined is an error.
pub fn render(template: &str, version: &str) -> (r: Result<String, Error>)
    ensures
        r is Ok <==> render_spec(template@, version@) is Some,
        r matches Ok(s) ==> s@ == render_spec(template@, version@)->0,
        r matches Err(e) ==> e matches Error::Template { template: t } && t@ == template@,
        sole_placeholder(template@) matches Some(n) ==> (is_lowercase_name(n) && !handlebars_reserved(n) && n
            != "version"@ && n != "versions"@ ==> r is Err),
{
    let data = version_data(version);
    assert(data@ == version_json(version@));
    match render_strict(template, data.as_str()) {
        Ok(s) => Ok(s),
        Err(_) => Err(Error::Template { template: String::from_str(template) }),
    }
}

/// Index of the first entry with the key.
pub open spec fn key_index(entries: Seq<(Seq<char>, Seq<char>)>, key: Seq<char>) -> Option<int>
    decreases entries.len(),
{
    if entries.len() == 0 {
        None
    } else {
        match key_index(entries.drop_last(), key) {
            Some(i) => Some(i),
            None => if entries.last().0 == key {
                Some(entries.len() - 1)
            } else {
                None
            },
        }
    }
}

proof fn lemma_key_index(entries: Seq<(Seq<char>, Seq<char>)>, key: Seq<char>, k: int)
    requires
        0 <= k <= entries.len(),
    ensures
        key_index(entries, key) matches Some(i) ==> 0 <= i < entries.len(),
        key_index(entries.subrange(0, k), key) is Some ==> key_index(entries, key) == key_index(entries.subrange(0, k), key),
    decreases entries.len() - k,
{
    if k < entries.len() {
        assert(entries.subrange(0, k + 1).drop_last() == entries.subrange(0, k));
        lemma_key_index(entries, key, k + 1);
    } else {
        assert(entries.subrange(0, k) == entries);
        lemma_key_index_bound(entries, key);
    }
}

proof fn lemma_key_index_bound(entries: Seq<(Seq<char>, Seq<char>)>, key: Seq<char>)
    ensures
        key_index(entries, key) matches Some(i) ==> 0 <= i < entries.len(),
    decreases entries.len(),
{
    if entries.len() > 0 {
        lemma_key_index_bound(entries.drop_last(), key);
    }
}

/// Binds `key` to `value`: a binding of the key is replaced, otherwise one is added.
pub open spec fn upsert(entries: Seq<(Seq<char>, Seq<char>)>, key: Seq<char>, value: Seq<char>) -> Seq<(Seq<char>, Seq<char>)> {
    match key_index(entries, key) {
        Some(i) => entries.update(i, (key, value)),
        None => entries.push((key, value)),
    }
}

/// The bindings in order, a later binding of a key replacing an earlier one.
pub open spec fn upsert_all(bindings: Seq<(Seq<char>, Seq<char>)>) -> Seq<(Seq<char>, Seq<char>)>
    decreases bindings.len(),
{
    if bindings.len() == 0 {
        Seq::empty()
    } else {
        upsert(upsert_all(bindings.drop_last()), bindings.last().0, bindings.last().1)
    }
}

/// The data of the base: `{"name": ..., "v": <version data>}`.
pub open spec fn base_json(base: SingleVersioned) -> Seq<char> {
    "{\"name\":"@ + json_string(base.name@) + ",\"v\":"@ + version_json(base.version@) + seq!['}']
}

/// The bindings of a name template: each feature's and the base's name to its
/// version data, `base` to the base's data, `date` to the date.
pub open spec fn name_bindings(base: SingleVersioned, features: Seq<SingleVersioned>, date: Seq<char>) -> Seq<(Seq<char>, Seq<char>)> {
    features.map_values(|f: SingleVersioned| (f.name@, version_json(f.version@))) + seq![
        (base.name@, version_json(base.version@)),
        ("base"@, base_json(base)),
        ("date"@, json_string(date)),
    ]
}

/// Bindings as a JSON object.
pub open spec fn object_json(entries: Seq<(Seq<char>, Seq<char>)>) -> Seq<char> {
    seq!['{'] + join_spec(entries.map_values(|e: (Seq<char>, Seq<char>)| json_string(e.0) + seq![':'] + e.1), seq![',']) + seq!['}']
}

/// What rendering a name template for a base, features and a date gives.
pub open spec fn render_name_spec(template: Seq<char>, base: SingleVersioned, features: Seq<SingleVersioned>, date: Seq<char>) -> Option<Seq<char>> {
    strict_render(template, object_json(upsert_all(name_bindings(base, features, date))))
}

/// Binds `key` to `value` in the entries.
fn bind(entries: &mut Vec<(String, String)>, key: String, value: String)
    ensures
        pairs_view(final(entries)@) == upsert(pairs_view(old(entries)@), key@, value@),
{
    let ghost ev = pairs_view(entries@);
    let mut i: usize = 0;
    while i < entries.len()
        invariant
            i <= entries.len(),
            ev == pairs_view(entries@),
            entries@ == old(entries)@,
            key_index(ev.subrange(0, i as int), key@) is None,
        decreases entries.len() - i,
    {
        assert(ev.subrange(0, i + 1).drop_last() == ev.subrange(0, i as int));
        if entries[i].0 == key {
            assert(ev[i as int].0 == key@);
            assert(ev.subrange(0, i + 1).last() == ev[i as int]);
            assert(key_index(ev.subrange(0, i + 1), key@) == Some(i as int));
            proof { lemma_key_index(ev, key@, i + 1); }
            let ghost k = key@;
            let ghost v = value@;
            entries.set(i, (key, value));
            assert(pairs_view(entries@) =~= ev.update(i as int, (k, v)));
            assert(key_index(ev, k) == Some(i as int));
            assert(upsert(ev, k, v) == ev.update(i as int, (k, v)));
            return;
        }
        i += 1;
    }
    assert(ev.subrange(0, i as int) == ev);
    let ghost k = key@;
    let ghost v = value@;
    entries.push((key, value));
    assert(pairs_view(entries@) =~= ev.push((k, v)));
}

pub open spec fn pairs_view(v: Seq<(String, String)>) -> Seq<(Seq<char>, Seq<char>)> {
    v.map_values(|e: (String, String)| (e.0@, e.1@))
}

/// The bindings as a JSON object.
fn object_data(entries: &Vec<(String, String)>) -> (r: String)
    ensures
        r@ == object_json(pairs_view(entries@)),
{
    let mut members: Vec<String> = Vec::new();
    let mut i: usize = 0;
    while i < entries.len()
        invariant
            i <= entries.len(),
            members@.len() == i,
            forall|j: int| 0 <= j < i ==> (#[trigger] members@[j])@ == json_string(entries@[j].0@) + seq![':'] + entries@[j].1@,
        decreases entries.len() - i,
    {
        let mut m = String::new();
        push_json_string(&mut m, entries[i].0.as_str());
        push_char(&mut m, ':');
        push_text(&mut m, entries[i].1.as_str());
        members.push(m);
        i += 1;
    }
    assert(strings_view(members@) =~= pairs_view(entries@).map_values(
        |e: (Seq<char>, Seq<char>)| json_string(e.0) + seq![':'] + e.1,
    ));
    let mut r = String::new();
    push_char(&mut r, '{');
    let body = join(&members, ",");
    proof { reveal_strlit(","); }
    assert(","@ == seq![',']);
    push_text(&mut r, body.as_str());
    push_char(&mut r, '}');
    assert(r@ =~= object_json(pairs_view(entries@)));
    r
}

/// The data of the base.
fn base_data(base: &SingleVersioned) -> (r: String)
    ensures
        r@ == base_json(*base),
{
    let mut r = String::from_str("{\"name\":");
    push_json_string(&mut r, base.name.as_str());
    push_text(&mut r, ",\"v\":");
    let v = version_data(base.version.as_str());
    push_text(&mut r, v.as_str());
    push_char(&mut r, '}');
    r
}

/// Renders a build-name template for a base with features on a given date.
/// Each feature's and the base's name is bound to its version data, `base` to
/// `{name, v}` of the base and `date` to the date; of two bindings of a name the
/// later holds.
pub fn render_name_template(
    template: &str,
    base: &SingleVersioned,
    features: &Vec<SingleVersioned>,
    date: &str,
) -> (r: Result<String, Error>)
    ensures
        r is Ok <==> render_name_spec(template@, *base, features@, date@) is Some,
        r matches Ok(s) ==> s@ == render_name_spec(template@, *base, features@, date@)->0,
        r matches Err(e) ==> e matches Error::Template { template: t } && t@ == template@,
{
    let ghost bindings = name_bindings(*base, features@, date@);
    let mut entries: Vec<(String, String)> = Vec::new();
    let mut i: usize = 0;
    while i < features.len()
        invariant
            i <= features.len(),
            bindings == name_bindings(*base, features@, date@),
            pairs_view(entries@) == upsert_all(bindings.subrange(0, i as int)),
        decreases features.len() - i,
    {
        let value = version_data(features[i].version.as_str());
        bind(&mut entries, features[i].name.clone(), value);
        assert(bindings[i as int] == (features@[i as int].name@, version_json(features@[i as int].version@)));
        assert(bindings.subrange(0, i + 1).drop_last() =~= bindings.subrange(0, i as int));
        assert(bindings.subrange(0, i + 1).last() == bindings[i as int]);
        i += 1;
    }
    let n = features.len();
    bind(&mut entries, base.name.clone(), version_data(base.version.as_str()));
    assert(bindings[n as int] == (base.name@, version_json(base.version@)));
    assert(bindings.subrange(0, n + 1).drop_last() =~= bindings.subrange(0, n as int));
    assert(bindings.subrange(0, n + 1).last() == bindings[n as int]);
    assert(pairs_view(entries@) == upsert_all(bindings.subrange(0, n + 1)));
    bind(&mut entries, String::from_str("base"), base_data(base));
    assert(bindings[n + 1] == ("base"@, base_json(*base)));
    assert(bindings.subrange(0, n + 2).drop_last() =~= bindings.subrange(0, n + 1));
    assert(bindings.subrange(0, n + 2).last() == bindings[n + 1]);
    assert(pairs_view(entries@) == upsert_all(bindings.subrange(0, n + 2)));
    bind(&mut entries, String::from_str("date"), {
        let mut d = String::new();
        push_json_string(&mut d, date);
        d
    });
    assert(bindings[n + 2] == ("date"@, json_string(date@)));
    assert(bindings.subrange(0, n + 3).drop_last() =~= bindings.subrange(0, n + 2));
    assert(bindings.subrange(0, n + 3).last() == bindings[n + 2]);
    assert(pairs_view(entries@) == upsert_all(bindings.subrange(0, n + 3)));
    assert(bindings.subrange(0, n + 3) =~= bindings);
    let data = object_data(&entries);
    assert(pairs_view(entries@) == upsert_all(bindings));
    assert(data@ == object_json(upsert_all(name_bindings(*base, features@, date@))));
    match render_strict(template, data.as_str()) {
        Ok(s) => Ok(s),
        Err(_) => Err(Error::Template { template: String::from_str(template) }),
    }
}

/// Relies on chrono's `From<SystemTime> for DateTime<Utc>` and `chrono::Datelike`: today's UTC date as
/// year, month (1 to 12) and day of the month (1 to 31).
#[verifier::external_body]
fn utc_today() -> (r: (i32, u32, u32))
    ensures
        1 <= r.1 <= 12,
        1 <= r.2 <= 31,
{
    let now: chrono::DateTime<chrono::Utc> = std::time::SystemTime::now().into();
    (now.year(), now.month(), now.day())
}

/// Two decimal digits for `n < 100`.
pub open spec fn two_digits(n: nat) -> Seq<char> {
    seq![digit_char(n / 10), digit_char(n % 10)]
}

/// The year's last two digits: the year modulo 100, also for years before zero.
pub open spec fn year_mod_100(year: int) -> nat {
    (if year >= 0 { year % 100 } else { (100 - ((-year) % 100)) % 100 }) as nat
}

/// The stamp `YY-MM-DD` of a date.
pub open spec fn date_stamp_spec(year: int, month: nat, day: nat) -> Seq<char> {
    two_digits(year_mod_100(year)) + seq!['-'] + two_digits(month) + seq!['-'] + two_digits(day)
}

fn push_two_digits(s: &mut String, n: u32)
    requires
        n < 100,
    ensures
        final(s)@ == old(s)@ + two_digits(n as nat),
{
    push_char(s, crate::text::decimal_digit((n / 10) as usize));
    push_char(s, crate::text::decimal_digit((n % 10) as usize));
}

/// The stamp `YY-MM-DD` of a date.
pub fn date_stamp(year: i32, month: u32, day: u32) -> (r: String)
    requires
        month < 100,
        day < 100,
    ensures
        r@ == date_stamp_spec(year as int, month as nat, day as nat),
{
    let yy: u32 = if year >= 0 {
        (year as u32) % 100
    } else {
        let back: u32 = ((-(year as i64)) as u64 % 100) as u32;
        (100 - back) % 100
    };
    let mut r = String::new();
    push_two_digits(&mut r, yy);
    push_char(&mut r, '-');
    push_two_digits(&mut r, month);
    push_char(&mut r, '-');
    push_two_digits(&mut r, day);
    r
}

/// Today's date stamp (UTC).
pub(crate) fn utc_date_stamp() -> (r: String)
    ensures
        exists|y: int, m: nat, d: nat| 1 <= m <= 12 && 1 <= d <= 31 && r@ == #[trigger] date_stamp_spec(y, m, d),
{
    let (year, month, day) = utc_today();
    date_stamp(year, month, day)
}

/// The shape of a `YY-MM-DD` date stamp.
pub open spec fn is_date_stamp(d: Seq<char>) -> bool {
    exists|y: int, m: nat, n: nat| 1 <= m <= 12 && 1 <= n <= 31 && d == #[trigger] date_stamp_spec(y, m, n)
}

/// Renders a build-name template with today's date (UTC, `YY-MM-DD`).
pub fn populate_name_template(
    template: &str,
    base_version: &SingleVersioned,
    feature_versions: &Vec<SingleVersioned>,
) -> (r: Result<String, Error>)
    ensures
        exists|date: Seq<char>|
            #![trigger render_name_spec(template@, *base_version, feature_versions@, date)]
            is_date_stamp(date) && (r is Ok <==> render_name_spec(template@, *base_version, feature_versions@, date) is Some)
                && (r matches Ok(s) ==> s@ == render_name_spec(template@, *base_version, feature_versions@, date)->0),
        r matches Err(e) ==> e is Template,
{
    let date = utc_date_stamp();
    render_name_template(template, base_version, feature_versions, date.as_str())
}

} // verus!
