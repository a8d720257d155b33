//! Changing single settings in the text of the configuration file. All other
//! settings stay as they are; comments and formatting do not.

use crate::config::{Config, EntryView, LauncherEntry};
use crate::launcher::entries_of;
use crate::panels::{Change, ChangeView};
use crate::text::{chars_of, is_blank, owned, texts};
use vstd::prelude::*;

verus! {

// ------------------------------------------------------------- toml values

/// The table type of the toml crate.
#[verifier::external_type_specification]
#[verifier::external_body]
#[verifier::reject_recursive_types(K)]
#[verifier::reject_recursive_types(V)]
pub struct ExTomlMap<K, V>(toml::map::Map<K, V>);

/// The value type of the toml crate.
#[verifier::external_type_specification]
#[verifier::external_body]
pub struct ExTomlValue(toml::Value);

/// What a setting holds.
pub enum Datum {
    Text(Seq<char>),
    Integer(i64),
    /// The bit pattern of a float. Whatever is no number counts as the quiet
    /// one of its sign.
    Float(u64),
    Boolean(bool),
    /// A date or time as the toml crate writes it.
    Datetime(Seq<char>),
    List(Seq<Datum>),
    Section(Map<Seq<char>, Datum>),
}

/// The settings that a table holds.
pub uninterp spec fn contents(t: toml::map::Map<String, toml::Value>) -> Map<Seq<char>, Datum>;

/// What a value holds.
pub uninterp spec fn datum(v: toml::Value) -> Datum;

/// What `str::parse` makes of a text as a table: its settings, or the words
/// of the error.
pub uninterp spec fn parsed(text: Seq<char>) -> Result<Map<Seq<char>, Datum>, Seq<char>>;

/// What `toml::to_string_pretty` writes for a table with these settings, or
/// the words of the error.
pub uninterp spec fn printed(m: Map<Seq<char>, Datum>) -> Result<Seq<char>, Seq<char>>;

pub open spec fn data(v: Seq<toml::Value>) -> Seq<Datum> {
    v.map_values(|x: toml::Value| datum(x))
}

/// The `n` characters of `s` from `i` on are digits.
pub open spec fn digits_at(s: Seq<char>, i: int, n: int) -> bool {
    &&& 0 <= i && i + n <= s.len()
    &&& forall|j: int| i <= j < i + n ==> '0' <= #[trigger] s[j] && s[j] <= '9'
}

/// The number that the digits at `i` and after it write.
pub open spec fn pair_at(s: Seq<char>, i: int) -> int {
    (s[i] as int - 0x30) * 10 + (s[i + 1] as int - 0x30)
}

/// How many days a month has.
pub open spec fn days_in(year: int, month: int) -> int {
    if month == 2 {
        if year % 4 == 0 && (year % 100 != 0 || year % 400 == 0) {
            29
        } else {
            28
        }
    } else if month == 4 || month == 6 || month == 9 || month == 11 {
        30
    } else {
        31
    }
}

/// A day, such as 1979-05-27.
pub open spec fn day_text(s: Seq<char>) -> bool {
    &&& s.len() == 10 && s[4] == '-' && s[7] == '-'
    &&& digits_at(s, 0, 4) && digits_at(s, 5, 2) && digits_at(s, 8, 2)
    &&& 1 <= pair_at(s, 5) <= 12
    &&& 1 <= pair_at(s, 8) <= days_in(pair_at(s, 0) * 100 + pair_at(s, 2), pair_at(s, 5))
}

/// A time of day, such as 07:32:00 or 07:32:00.5.
pub open spec fn time_text(s: Seq<char>) -> bool {
    &&& s.len() >= 8 && s[2] == ':' && s[5] == ':'
    &&& digits_at(s, 0, 2) && digits_at(s, 3, 2) && digits_at(s, 6, 2)
    &&& pair_at(s, 0) <= 23 && pair_at(s, 3) <= 59 && pair_at(s, 6) <= 60
    &&& s.len() == 8 || (10 <= s.len() <= 18 && s[8] == '.' && digits_at(s, 9, s.len() - 9))
}

/// How far local time is from universal time: Z, or such as -07:00.
pub open spec fn offset_text(s: Seq<char>) -> bool {
    ||| s == seq!['Z']
    ||| s.len() == 6 && (s[0] == '+' || s[0] == '-') && s[3] == ':' && digits_at(s, 1, 2)
        && digits_at(s, 4, 2) && pair_at(s, 1) <= 23 && pair_at(s, 4) <= 59
}

/// A valid date or time: a day, a time of day, or both, then perhaps with an
/// offset.
pub open spec fn date_text(s: Seq<char>) -> bool {
    ||| day_text(s)
    ||| time_text(s)
    ||| s.len() > 11 && day_text(s.take(10)) && s[10] == 'T' && (time_text(s.skip(11)) || exists|n: int|
        11 < n < s.len() && #[trigger] time_text(s.subrange(11, n)) && offset_text(s.skip(n)))
}

/// 256 characters `q` in a row, from the character at `i` on.
pub open spec fn run_at(s: Seq<char>, q: char, i: int) -> bool {
    0 <= i && i + 256 <= s.len() && forall|j: int| i <= j < i + 256 ==> #[trigger] s[j] == q
}

/// A text without 256 equal quotes in a row.
pub open spec fn quiet_text(s: Seq<char>) -> bool {
    &&& forall|i: int| !#[trigger] run_at(s, '\'', i)
    &&& forall|i: int| !#[trigger] run_at(s, '"', i)
}

/// A value all of whose texts are quiet.
pub open spec fn quiet(d: Datum) -> bool
    decreases d,
{
    match d {
        Datum::Text(s) => quiet_text(s),
        Datum::List(s) => forall|i: int| 0 <= i < s.len() ==> quiet(#[trigger] s[i]),
        Datum::Section(m) => forall|k: Seq<char>| #[trigger] m.contains_key(k) ==> quiet(m[k]),
        _ => true,
    }
}

/// A value all of whose dates and times are valid.
pub open spec fn dated(d: Datum) -> bool
    decreases d,
{
    match d {
        Datum::Datetime(s) => date_text(s),
        Datum::List(s) => forall|i: int| 0 <= i < s.len() ==> dated(#[trigger] s[i]),
        Datum::Section(m) => forall|k: Seq<char>| #[trigger] m.contains_key(k) ==> dated(m[k]),
        _ => true,
    }
}

/// Settings that can be written: their texts are quiet, and their dates and
/// times valid.
pub open spec fn printable(m: Map<Seq<char>, Datum>) -> bool {
    quiet(Datum::Section(m)) && dated(Datum::Section(m))
}

/// A value that reads back as it was written: nested within limits, without
/// long rows of quotes, without a negative float that is no number, and without
/// the key by which the toml crate marks a date.
pub open spec fn plain(d: Datum, depth: nat) -> bool
    decreases depth, 1int,
{
    match d {
        Datum::Text(s) => quiet_text(s),
        Datum::Integer(_) => true,
        Datum::Float(bits) => bits % 0x8000_0000_0000_0000 <= 0x7FF0_0000_0000_0000 || bits
            == 0x7FF8_0000_0000_0000,
        Datum::Boolean(_) => true,
        Datum::Datetime(_) => true,
        Datum::List(s) => plain_list(s, depth),
        Datum::Section(m) => plain_settings(m, depth),
    }
}

pub open spec fn plain_list(s: Seq<Datum>, depth: nat) -> bool
    decreases depth, 0int,
{
    depth > 0 && forall|i: int| 0 <= i < s.len() ==> plain(#[trigger] s[i], (depth - 1) as nat)
}

pub open spec fn plain_settings(m: Map<Seq<char>, Datum>, depth: nat) -> bool
    decreases depth, 0int,
{
    depth > 0 && forall|k: Seq<char>| #[trigger]
        m.contains_key(k) ==> k != "$__toml_private_datetime"@ && plain(m[k], (depth - 1) as nat)
}

/// Settings that read back as they were written.
pub open spec fn writable(m: Map<Seq<char>, Datum>) -> bool {
    plain_settings(m, 80)
}

/// `r` is a text that reads as these settings.
pub open spec fn reads_as(r: Result<String, String>, m: Map<Seq<char>, Datum>) -> bool {
    match r {
        Ok(s) => parsed(s@) == Ok::<Map<Seq<char>, Datum>, Seq<char>>(m),
        Err(_) => false,
    }
}

/// No settings at all.
pub open spec fn no_settings() -> Map<Seq<char>, Datum> {
    Map::empty()
}

/// `str::parse::<toml::Table>`: reads a text as a table. The outcome is a
/// function of the text. What it is for a given text is not stated, but that
/// every date and time in it is valid, and that an empty text has no settings.
#[verifier::external_body]
fn parse_table(text: &str) -> (r: Result<toml::map::Map<String, toml::Value>, String>)
    ensures
        match r {
            Ok(t) => {
                &&& parsed(text@) == Ok::<Map<Seq<char>, Datum>, Seq<char>>(contents(t))
                &&& dated(Datum::Section(contents(t)))
                &&& text@.len() == 0 ==> contents(t) == no_settings()
            },
            Err(e) => {
                &&& parsed(text@) == Err::<Map<Seq<char>, Datum>, Seq<char>>(e@)
                &&& text@.len() > 0
            },
        },
{
    text.parse::<toml::Table>().map_err(|e| e.to_string())
}

/// `toml::to_string_pretty`: writes a table. The outcome is a function of its
/// settings. Those that are plain are written without an error, and the text
/// reads back as the same settings; what the text is, is not stated. It counts
/// quotes in a row in eight bits and may panic on a text with 256 equal quotes
/// in a row, so there must be none. Nor may there be an invalid date or time,
/// such as the 30th of February.
#[verifier::external_body]
fn print_table(t: &toml::map::Map<String, toml::Value>) -> (r: Result<String, String>)
    requires
        printable(contents(*t)),
    ensures
        match r {
            Ok(s) => printed(contents(*t)) == Ok::<Seq<char>, Seq<char>>(s@),
            Err(e) => printed(contents(*t)) == Err::<Seq<char>, Seq<char>>(e@),
        },
        writable(contents(*t)) ==> reads_as(r, contents(*t)),
{
    toml::to_string_pretty(t).map_err(|e| e.to_string())
}

/// `toml::Table::new`: a table without settings.
#[verifier::external_body]
fn new_table() -> (r: toml::map::Map<String, toml::Value>)
    ensures
        contents(r) == no_settings(),
{
    toml::Table::new()
}

/// `toml::Table::insert`: sets one key, in place of what it held.
#[verifier::external_body]
fn put(t: &mut toml::map::Map<String, toml::Value>, key: String, v: toml::Value)
    ensures
        contents(*final(t)) == contents(*old(t)).insert(key@, datum(v)),
{
    t.insert(key, v);
}

/// `toml::Table::remove`: takes one key out and gives back what it held.
#[verifier::external_body]
fn take(t: &mut toml::map::Map<String, toml::Value>, key: &str) -> (r: Option<toml::Value>)
    ensures
        contents(*final(t)) == contents(*old(t)).remove(key@),
        match r {
            Some(v) => contents(*old(t)).contains_key(key@) && contents(*old(t))[key@] == datum(v),
            None => !contents(*old(t)).contains_key(key@),
        },
{
    t.remove(key)
}

/// `toml::Value::String`.
#[verifier::external_body]
fn text_value(s: String) -> (r: toml::Value)
    ensures
        datum(r) == Datum::Text(s@),
{
    toml::Value::String(s)
}

/// `toml::Value::Integer`.
#[verifier::external_body]
fn integer_value(n: i64) -> (r: toml::Value)
    ensures
        datum(r) == Datum::Integer(n),
{
    toml::Value::Integer(n)
}

/// `toml::Value::Array`.
#[verifier::external_body]
fn list_value(v: Vec<toml::Value>) -> (r: toml::Value)
    ensures
        datum(r) == Datum::List(data(v@)),
{
    toml::Value::Array(v)
}

/// `toml::Value::Table`.
#[verifier::external_body]
fn section_value(t: toml::map::Map<String, toml::Value>) -> (r: toml::Value)
    ensures
        datum(r) == Datum::Section(contents(t)),
{
    toml::Value::Table(t)
}

/// Tells a `toml::Value::Table` from the other kinds of values.
#[verifier::external_body]
fn as_section(v: toml::Value) -> (r: Result<toml::map::Map<String, toml::Value>, toml::Value>)
    ensures
        match r {
            Ok(t) => datum(v) == Datum::Section(contents(t)),
            Err(u) => u == v && !(datum(v) is Section),
        },
{
    match v {
        toml::Value::Table(t) => Ok(t),
        other => Err(other),
    }
}

/// `toml::Value::as_str`: the text, where the value is one.
#[verifier::external_body]
fn text_in(v: &toml::Value) -> (r: Option<&str>)
    ensures
        match r {
            Some(s) => datum(*v) == Datum::Text(s@),
            None => !(datum(*v) is Text),
        },
{
    v.as_str()
}

/// `toml::Value::as_array`: the values of the list, where the value is one.
#[verifier::external_body]
fn list_in(v: &toml::Value) -> (r: Option<&Vec<toml::Value>>)
    ensures
        match r {
            Some(s) => datum(*v) == Datum::List(data(s@)),
            None => !(datum(*v) is List),
        },
{
    v.as_array()
}

/// `toml::Value::as_table`: the table, where the value is one.
#[verifier::external_body]
fn section_in(v: &toml::Value) -> (r: Option<&toml::map::Map<String, toml::Value>>)
    ensures
        match r {
            Some(t) => datum(*v) == Datum::Section(contents(*t)),
            None => !(datum(*v) is Section),
        },
{
    v.as_table()
}

/// `toml::Table::values`: the values of all keys, in no order that is stated.
#[verifier::external_body]
fn values_in(t: &toml::map::Map<String, toml::Value>) -> (r: Vec<&toml::Value>)
    ensures
        forall|i: int| 0 <= i < r.len() ==> contents(*t).contains_value(datum(*#[trigger] r@[i])),
        forall|k: Seq<char>| #[trigger]
            contents(*t).contains_key(k) ==> exists|i: int|
                0 <= i < r.len() && datum(*#[trigger] r@[i]) == contents(*t)[k],
{
    t.values().collect()
}

// ----------------------------------------------------------------- writing

/// Tells a text without 256 equal quotes in a row.
pub fn is_quiet(s: &str) -> (r: bool)
    ensures
        r == quiet_text(s@),
{
    !has_run(s, '\'') && !has_run(s, '"')
}

fn has_run(s: &str, q: char) -> (r: bool)
    ensures
        r == exists|k: int| #[trigger] run_at(s@, q, k),
{
    let v = chars_of(s);
    let mut n: usize = 0;
    let mut i: usize = 0;
    while i < v.len()
        invariant
            v@ == s@,
            n <= i <= v.len(),
            n < 256,
            forall|j: int| i - n <= j < i ==> #[trigger] v@[j] == q,
            n < i ==> v@[i - n - 1] != q,
            forall|k: int| k + 256 <= i ==> !#[trigger] run_at(s@, q, k),
        decreases v.len() - i,
    {
        if v[i] == q {
            n = n + 1;
            if n == 256 {
                proof {
                    assert(run_at(s@, q, i - 255));
                }
                return true;
            }
        } else {
            n = 0;
        }
        i = i + 1;
        proof {
            assert forall|k: int| k + 256 <= i implies !#[trigger] run_at(s@, q, k) by {
                if run_at(s@, q, k) && k + 256 == i {
                    assert(k <= i - n - 1 < k + 256);
                    assert(s@[i - n - 1] == q);
                }
            }
        }
    }
    false
}

proof fn lemma_inside_list(d: Datum, i: int)
    requires
        d is List,
        0 <= i < d->List_0.len(),
    ensures
        decreases_to!(d => d->List_0[i]),
{
}

proof fn lemma_inside_section(d: Datum, k: Seq<char>)
    requires
        d is Section,
        d->Section_0.contains_key(k),
    ensures
        decreases_to!(d => d->Section_0[k]),
{
}

fn quiet_value(v: &toml::Value) -> (r: bool)
    ensures
        r == quiet(datum(*v)),
    decreases datum(*v), 1int,
{
    if let Some(s) = text_in(v) {
        return is_quiet(s);
    }
    if let Some(s) = list_in(v) {
        let ghost d = data(s@);
        let mut i: usize = 0;
        while i < s.len()
            invariant
                i <= s.len(),
                d == data(s@),
                datum(*v) == Datum::List(d),
                forall|k: int| 0 <= k < i ==> quiet(#[trigger] d[k]),
            decreases s.len() - i,
        {
            proof {
                assert(d[i as int] == datum(s@[i as int]));
                lemma_inside_list(datum(*v), i as int);
            }
            if !quiet_value(&s[i]) {
                return false;
            }
            i = i + 1;
        }
        return true;
    }
    match section_in(v) {
        Some(t) => quiet_table(t),
        None => true,
    }
}

/// Tells a table all of whose texts are quiet.
fn quiet_table(t: &toml::map::Map<String, toml::Value>) -> (r: bool)
    ensures
        r == quiet(Datum::Section(contents(*t))),
    decreases Datum::Section(contents(*t)), 0int,
{
    let v = values_in(t);
    let ghost m = contents(*t);
    let mut i: usize = 0;
    while i < v.len()
        invariant
            i <= v.len(),
            m == contents(*t),
            forall|k: int| 0 <= k < v.len() ==> m.contains_value(datum(*#[trigger] v@[k])),
            forall|k: int| 0 <= k < i ==> quiet(datum(*#[trigger] v@[k])),
        decreases v.len() - i,
    {
        let ghost k = choose|k: Seq<char>| m.contains_key(k) && m[k] == datum(*v@[i as int]);
        proof {
            assert(m.contains_value(datum(*v@[i as int])));
            assert(m.contains_key(k));
            lemma_inside_section(Datum::Section(m), k);
        }
        if !quiet_value(v[i]) {
            return false;
        }
        i = i + 1;
    }
    true
}

/// The error where a text holds too many quotes in a row.
pub open spec fn too_loud() -> Seq<char> {
    "a text holds 256 quotes in a row"@
}

/// The text of a file with these settings, or the error.
pub open spec fn written(m: Map<Seq<char>, Datum>) -> Result<Seq<char>, Seq<char>> {
    if quiet(Datum::Section(m)) {
        printed(m)
    } else {
        Err(too_loud())
    }
}

proof fn lemma_plain_is_quiet(d: Datum, depth: nat)
    requires
        plain(d, depth),
    ensures
        quiet(d),
    decreases depth,
{
    match d {
        Datum::List(s) => {
            assert forall|i: int| 0 <= i < s.len() implies quiet(#[trigger] s[i]) by {
                lemma_plain_is_quiet(s[i], (depth - 1) as nat);
            }
        },
        Datum::Section(m) => {
            assert forall|k: Seq<char>| #[trigger] m.contains_key(k) implies quiet(m[k]) by {
                lemma_plain_is_quiet(m[k], (depth - 1) as nat);
            }
        },
        _ => {},
    }
}

/// Writes a table, unless a text in it holds too many quotes in a row.
fn write_table(t: &toml::map::Map<String, toml::Value>) -> (r: Result<String, String>)
    requires
        dated(Datum::Section(contents(*t))),
    ensures
        tells(r, written(contents(*t))),
        writable(contents(*t)) ==> reads_as(r, contents(*t)),
{
    proof {
        if writable(contents(*t)) {
            lemma_plain_is_quiet(Datum::Section(contents(*t)), 80);
        }
    }
    if quiet_table(t) {
        print_table(t)
    } else {
        Err(owned("a text holds 256 quotes in a row"))
    }
}

// --------------------------------------------------------------- changes
// --------------------------------------------------------------- changes

/// The section of that name, an empty one where there is none; nothing where
/// the key holds something else.
pub open spec fn section_of(m: Map<Seq<char>, Datum>, name: Seq<char>) -> Option<
    Map<Seq<char>, Datum>,
> {
    if !m.contains_key(name) {
        Some(no_settings())
    } else {
        match m[name] {
            Datum::Section(s) => Some(s),
            _ => None,
        }
    }
}

/// With a chord bound to an action.
pub open spec fn with_keybinding(
    m: Map<Seq<char>, Datum>,
    action: Seq<char>,
    chord: Seq<char>,
) -> Map<Seq<char>, Datum> {
    match section_of(m, "keybindings"@) {
        Some(s) => m.insert(
            "keybindings"@,
            Datum::Section(s.insert(action, Datum::Text(chord))),
        ),
        None => m,
    }
}

/// With a rule for a program added, or removed.
pub open spec fn with_app_rule(
    m: Map<Seq<char>, Datum>,
    exe: Seq<char>,
    workspace: Option<usize>,
) -> Map<Seq<char>, Datum> {
    match section_of(m, "app_rules"@) {
        Some(s) => m.insert(
            "app_rules"@,
            Datum::Section(
                match workspace {
                    Some(n) => s.insert(exe, Datum::Integer(n as i64)),
                    None => s.remove(exe),
                },
            ),
        ),
        None => m,
    }
}

/// A list of texts.
pub open spec fn text_list(names: Seq<Seq<char>>) -> Datum {
    Datum::List(names.map_values(|n: Seq<char>| Datum::Text(n)))
}

/// With `key` set to `text`, unless that is empty.
pub open spec fn with_text(
    m: Map<Seq<char>, Datum>,
    key: Seq<char>,
    text: Seq<char>,
) -> Map<Seq<char>, Datum> {
    if text.len() == 0 {
        m
    } else {
        m.insert(key, Datum::Text(text))
    }
}

/// The section of a launcher entry; what is empty is left out.
pub open spec fn entry_section(e: EntryView) -> Map<Seq<char>, Datum> {
    let a = no_settings().insert("name"@, Datum::Text(e.name)).insert(
        "command"@,
        Datum::Text(e.command),
    );
    with_text(
        with_text(with_text(with_text(a, "args"@, e.args), "dir"@, e.dir), "key"@, e.key),
        "group"@,
        e.group,
    )
}

/// No field of a launcher entry holds 256 equal quotes in a row.
pub open spec fn quiet_entry(e: EntryView) -> bool {
    &&& quiet_text(e.name)
    &&& quiet_text(e.command)
    &&& quiet_text(e.args)
    &&& quiet_text(e.dir)
    &&& quiet_text(e.key)
    &&& quiet_text(e.group)
}

pub open spec fn launcher_list(entries: Seq<LauncherEntry>) -> Datum {
    Datum::List(entries.map_values(|e: LauncherEntry| Datum::Section(entry_section(e@))))
}

/// The text of the file after a change of its settings, or the error.
pub open spec fn rewritten(
    text: Seq<char>,
    change: spec_fn(Map<Seq<char>, Datum>) -> Map<Seq<char>, Datum>,
) -> Result<Seq<char>, Seq<char>> {
    match parsed(text) {
        Ok(m) => written(change(m)),
        Err(e) => Err(e),
    }
}

/// `r` is the text or error that `s` describes.
pub open spec fn tells(r: Result<String, String>, s: Result<Seq<char>, Seq<char>>) -> bool {
    match r {
        Ok(t) => s == Ok::<Seq<char>, Seq<char>>(t@),
        Err(e) => s == Err::<Seq<char>, Seq<char>>(e@),
    }
}

/// `r` is the text of the file after a change of its settings, or the error.
/// An empty file has no settings. Where the changed settings are plain, the
/// text reads as them.
pub open spec fn saved(
    r: Result<String, String>,
    text: Seq<char>,
    change: spec_fn(Map<Seq<char>, Datum>) -> Map<Seq<char>, Datum>,
) -> bool {
    &&& tells(r, rewritten(text, change))
    &&& text.len() == 0 ==> parsed(text) == Ok::<Map<Seq<char>, Datum>, Seq<char>>(no_settings())
    &&& parsed(text) matches Ok(m) ==> writable(change(m)) ==> reads_as(r, change(m))
}

/// Binds a chord to an action.
pub fn set_keybinding(
    table: &mut toml::map::Map<String, toml::Value>,
    action: &str,
    chord: &str,
)
    ensures
        contents(*final(table)) == with_keybinding(contents(*old(table)), action@, chord@),
{
    let ghost m = contents(*table);
    let found = take(table, "keybindings");
    let mut section = match found {
        None => new_table(),
        Some(v) => match as_section(v) {
            Ok(t) => t,
            Err(v) => {
                put(table, owned("keybindings"), v);
                proof {
                    assert(contents(*table) =~= m);
                }
                return;
            },
        },
    };
    put(&mut section, owned(action), text_value(owned(chord)));
    let ghost s = contents(section);
    put(table, owned("keybindings"), section_value(section));
    proof {
        assert(contents(*table) =~= m.insert("keybindings"@, Datum::Section(s)));
    }
}

/// Adds or changes the rule for a program, or removes it.
pub fn set_app_rule(
    table: &mut toml::map::Map<String, toml::Value>,
    exe: &str,
    workspace: Option<usize>,
)
    ensures
        contents(*final(table)) == with_app_rule(contents(*old(table)), exe@, workspace),
{
    let ghost m = contents(*table);
    let found = take(table, "app_rules");
    let mut section = match found {
        None => new_table(),
        Some(v) => match as_section(v) {
            Ok(t) => t,
            Err(v) => {
                put(table, owned("app_rules"), v);
                proof {
                    assert(contents(*table) =~= m);
                }
                return;
            },
        },
    };
    match workspace {
        Some(n) => {
            put(&mut section, owned(exe), integer_value(n as i64));
        },
        None => {
            let _ = take(&mut section, exe);
        },
    }
    let ghost s = contents(section);
    put(table, owned("app_rules"), section_value(section));
    proof {
        assert(contents(*table) =~= m.insert("app_rules"@, Datum::Section(s)));
    }
}

/// Sets the names of the workspaces.
pub fn set_workspace_names(table: &mut toml::map::Map<String, toml::Value>, names: &Vec<String>)
    ensures
        contents(*final(table)) == contents(*old(table)).insert(
            "workspace_names"@,
            text_list(texts(names@)),
        ),
{
    let mut v: Vec<toml::Value> = Vec::new();
    let mut i: usize = 0;
    while i < names.len()
        invariant
            i <= names.len(),
            v.len() == i,
            forall|k: int| 0 <= k < i ==> datum(#[trigger] v@[k]) == Datum::Text(names@[k]@),
        decreases names.len() - i,
    {
        v.push(text_value(names[i].clone()));
        i = i + 1;
    }
    proof {
        assert(data(v@) =~= texts(names@).map_values(|n: Seq<char>| Datum::Text(n)));
    }
    put(table, owned("workspace_names"), list_value(v));
}

fn put_text(t: &mut toml::map::Map<String, toml::Value>, key: &str, text: &String)
    ensures
        contents(*final(t)) == with_text(contents(*old(t)), key@, text@),
{
    if !is_blank(text.as_str()) {
        put(t, owned(key), text_value(text.clone()));
    }
}

fn entry_table(e: &LauncherEntry) -> (r: toml::map::Map<String, toml::Value>)
    ensures
        contents(r) == entry_section(e@),
{
    let mut t = new_table();
    put(&mut t, owned("name"), text_value(e.name.clone()));
    put(&mut t, owned("command"), text_value(e.command.clone()));
    put_text(&mut t, "args", &e.args);
    put_text(&mut t, "dir", &e.dir);
    put_text(&mut t, "key", &e.key);
    put_text(&mut t, "group", &e.group);
    t
}

/// Sets the whole list of the launcher.
pub fn set_launcher(table: &mut toml::map::Map<String, toml::Value>, entries: &Vec<LauncherEntry>)
    ensures
        contents(*final(table)) == contents(*old(table)).insert(
            "launcher"@,
            launcher_list(entries@),
        ),
{
    let mut v: Vec<toml::Value> = Vec::new();
    let mut i: usize = 0;
    while i < entries.len()
        invariant
            i <= entries.len(),
            v.len() == i,
            forall|k: int|
                0 <= k < i ==> datum(#[trigger] v@[k]) == Datum::Section(
                    entry_section(entries@[k]@),
                ),
        decreases entries.len() - i,
    {
        v.push(section_value(entry_table(&entries[i])));
        i = i + 1;
    }
    proof {
        assert(data(v@) =~= entries@.map_values(
            |e: LauncherEntry| Datum::Section(entry_section(e@)),
        ));
    }
    put(table, owned("launcher"), list_value(v));
}

/// Sets a number.
pub fn set_integer(table: &mut toml::map::Map<String, toml::Value>, key: &str, n: i64)
    ensures
        contents(*final(table)) == contents(*old(table)).insert(key@, Datum::Integer(n)),
{
    put(table, owned(key), integer_value(n));
}

/// Sets a text.
pub fn set_text(table: &mut toml::map::Map<String, toml::Value>, key: &str, text: &str)
    ensures
        contents(*final(table)) == contents(*old(table)).insert(key@, Datum::Text(text@)),
{
    put(table, owned(key), text_value(owned(text)));
}

// ------------------------------------------------------------ whole files

proof fn lemma_dated_inside(d: Datum, k: Seq<char>)
    requires
        dated(d),
        d is Section,
        d->Section_0.contains_key(k),
    ensures
        dated(d->Section_0[k]),
{
    match d {
        Datum::Section(m) => {
            assert(m.contains_key(k));
            assert(dated(m[k]));
        },
        _ => {},
    }
}

/// Setting a key to a value without wrong dates adds none.
proof fn lemma_dated_with(m: Map<Seq<char>, Datum>, key: Seq<char>, d: Datum)
    requires
        dated(Datum::Section(m)),
        dated(d),
    ensures
        dated(Datum::Section(m.insert(key, d))),
{
    let n = m.insert(key, d);
    assert forall|k: Seq<char>| #[trigger] n.contains_key(k) implies dated(n[k]) by {
        if k != key {
            lemma_dated_inside(Datum::Section(m), k);
        }
    }
}

proof fn lemma_dated_section(m: Map<Seq<char>, Datum>, name: Seq<char>)
    requires
        dated(Datum::Section(m)),
    ensures
        section_of(m, name) matches Some(s) ==> dated(Datum::Section(s)),
{
    if m.contains_key(name) {
        lemma_dated_inside(Datum::Section(m), name);
    }
}

proof fn lemma_dated_keybinding(m: Map<Seq<char>, Datum>, action: Seq<char>, chord: Seq<char>)
    requires
        dated(Datum::Section(m)),
    ensures
        dated(Datum::Section(with_keybinding(m, action, chord))),
{
    lemma_dated_section(m, "keybindings"@);
    match section_of(m, "keybindings"@) {
        Some(s) => {
            lemma_dated_with(s, action, Datum::Text(chord));
            lemma_dated_with(
                m,
                "keybindings"@,
                Datum::Section(s.insert(action, Datum::Text(chord))),
            );
        },
        None => {},
    }
}

proof fn lemma_dated_rule(m: Map<Seq<char>, Datum>, exe: Seq<char>, workspace: Option<usize>)
    requires
        dated(Datum::Section(m)),
    ensures
        dated(Datum::Section(with_app_rule(m, exe, workspace))),
{
    lemma_dated_section(m, "app_rules"@);
    match section_of(m, "app_rules"@) {
        Some(s) => {
            let t = match workspace {
                Some(n) => s.insert(exe, Datum::Integer(n as i64)),
                None => s.remove(exe),
            };
            assert forall|k: Seq<char>| #[trigger] t.contains_key(k) implies dated(t[k]) by {
                if k != exe {
                    assert(s.contains_key(k));
                }
            }
            lemma_dated_with(m, "app_rules"@, Datum::Section(t));
        },
        None => {},
    }
}

proof fn lemma_dated_lists(names: Seq<Seq<char>>, entries: Seq<LauncherEntry>)
    ensures
        dated(text_list(names)),
        dated(launcher_list(entries)),
{
    let v = names.map_values(|n: Seq<char>| Datum::Text(n));
    assert forall|i: int| 0 <= i < v.len() implies dated(#[trigger] v[i]) by {
        assert(v[i] == Datum::Text(names[i]));
    }
    let w = entries.map_values(|e: LauncherEntry| Datum::Section(entry_section(e@)));
    assert forall|i: int| 0 <= i < w.len() implies dated(#[trigger] w[i]) by {
        let m = entry_section(entries[i]@);
        assert forall|k: Seq<char>| #[trigger] m.contains_key(k) implies dated(m[k]) by {
            assert(m[k] is Text);
        }
        assert(w[i] == Datum::Section(m));
    }
}

/// The file with a chord bound to an action.
pub fn save_keybinding(text: &str, action: &str, chord: &str) -> (r: Result<String, String>)
    ensures
        saved(
            r,
            text@,
            |m: Map<Seq<char>, Datum>| with_keybinding(m, action@, chord@),
        ),
{
    let mut table = match parse_table(text) {
        Ok(t) => t,
        Err(e) => {
            return Err(e);
        },
    };
    let ghost m = contents(table);
    set_keybinding(&mut table, action, chord);
    proof {
        lemma_dated_keybinding(m, action@, chord@);
    }
    write_table(&table)
}

/// The file with the names of the workspaces set.
pub fn save_workspace_names(text: &str, names: &Vec<String>) -> (r: Result<String, String>)
    ensures
        saved(
            r,
            text@,
            |m: Map<Seq<char>, Datum>|
                m.insert("workspace_names"@, text_list(texts(names@))),
        ),
{
    let mut table = match parse_table(text) {
        Ok(t) => t,
        Err(e) => {
            return Err(e);
        },
    };
    let ghost m = contents(table);
    set_workspace_names(&mut table, names);
    proof {
        lemma_dated_lists(texts(names@), Seq::empty());
        lemma_dated_with(m, "workspace_names"@, text_list(texts(names@)));
    }
    write_table(&table)
}

/// The file with the whole list of the launcher set.
pub fn save_launcher(text: &str, entries: &Vec<LauncherEntry>) -> (r: Result<String, String>)
    ensures
        saved(
            r,
            text@,
            |m: Map<Seq<char>, Datum>| m.insert("launcher"@, launcher_list(entries@)),
        ),
{
    let mut table = match parse_table(text) {
        Ok(t) => t,
        Err(e) => {
            return Err(e);
        },
    };
    let ghost m = contents(table);
    set_launcher(&mut table, entries);
    proof {
        lemma_dated_lists(Seq::empty(), entries@);
        lemma_dated_with(m, "launcher"@, launcher_list(entries@));
    }
    write_table(&table)
}

/// The file with the number of workspaces set.
pub fn save_workspaces(text: &str, n: usize) -> (r: Result<String, String>)
    ensures
        saved(
            r,
            text@,
            |m: Map<Seq<char>, Datum>| m.insert("workspaces"@, Datum::Integer(n as i64)),
        ),
{
    let mut table = match parse_table(text) {
        Ok(t) => t,
        Err(e) => {
            return Err(e);
        },
    };
    let ghost m = contents(table);
    set_integer(&mut table, "workspaces", n as i64);
    proof {
        lemma_dated_with(m, "workspaces"@, Datum::Integer(n as i64));
    }
    write_table(&table)
}

/// The file with the thickness of the focus frame set.
pub fn save_border_thickness(text: &str, t: i32) -> (r: Result<String, String>)
    ensures
        saved(
            r,
            text@,
            |m: Map<Seq<char>, Datum>| m.insert("border_thickness"@, Datum::Integer(t as i64)),
        ),
{
    let mut table = match parse_table(text) {
        Ok(t) => t,
        Err(e) => {
            return Err(e);
        },
    };
    let ghost m = contents(table);
    set_integer(&mut table, "border_thickness", t as i64);
    proof {
        lemma_dated_with(m, "border_thickness"@, Datum::Integer(t as i64));
    }
    write_table(&table)
}

/// The file with the accent color set.
pub fn save_border_color(text: &str, hex: &str) -> (r: Result<String, String>)
    ensures
        saved(
            r,
            text@,
            |m: Map<Seq<char>, Datum>| m.insert("active_border_color"@, Datum::Text(hex@)),
        ),
{
    let mut table = match parse_table(text) {
        Ok(t) => t,
        Err(e) => {
            return Err(e);
        },
    };
    let ghost m = contents(table);
    set_text(&mut table, "active_border_color", hex);
    proof {
        lemma_dated_with(m, "active_border_color"@, Datum::Text(hex@));
    }
    write_table(&table)
}

/// The file with the source of the meetings set.
pub fn save_calendar_source(text: &str, source: &str) -> (r: Result<String, String>)
    ensures
        saved(
            r,
            text@,
            |m: Map<Seq<char>, Datum>| m.insert("calendar_source"@, Datum::Text(source@)),
        ),
{
    let mut table = match parse_table(text) {
        Ok(t) => t,
        Err(e) => {
            return Err(e);
        },
    };
    let ghost m = contents(table);
    set_text(&mut table, "calendar_source", source);
    proof {
        lemma_dated_with(m, "calendar_source"@, Datum::Text(source@));
    }
    write_table(&table)
}

/// The file with the rule for a program added, or removed.
pub fn save_app_rule(text: &str, exe: &str, workspace: Option<usize>) -> (r: Result<
    String,
    String,
>)
    ensures
        saved(
            r,
            text@,
            |m: Map<Seq<char>, Datum>| with_app_rule(m, exe@, workspace),
        ),
{
    let mut table = match parse_table(text) {
        Ok(t) => t,
        Err(e) => {
            return Err(e);
        },
    };
    let ghost m = contents(table);
    set_app_rule(&mut table, exe, workspace);
    proof {
        lemma_dated_rule(m, exe@, workspace);
    }
    write_table(&table)
}

/// With a change, where the configuration has these names of workspaces and
/// these launcher entries.
pub open spec fn with_change(
    m: Map<Seq<char>, Datum>,
    change: ChangeView,
    names: Seq<Seq<char>>,
    entries: Seq<LauncherEntry>,
) -> Map<Seq<char>, Datum> {
    match change {
        ChangeView::Rule(exe, workspace) => with_app_rule(m, exe, workspace),
        ChangeView::Launcher => m.insert("launcher"@, launcher_list(entries)),
        ChangeView::Names => m.insert("workspace_names"@, text_list(names)),
        ChangeView::Color(hex) => m.insert("active_border_color"@, Datum::Text(hex)),
        ChangeView::Thickness(t) => m.insert("border_thickness"@, Datum::Integer(t as i64)),
        ChangeView::Workspaces(n) => m.insert("workspaces"@, Datum::Integer(n as i64)),
        ChangeView::Calendar(source) => m.insert("calendar_source"@, Datum::Text(source)),
    }
}

/// The file with a change of the running configuration.
pub fn save_change(text: &str, change: &Change, config: &Config) -> (r: Result<String, String>)
    ensures
        saved(
            r,
            text@,
            |m: Map<Seq<char>, Datum>|
                with_change(m, change@, texts(config.workspace_names@), config.launcher@),
        ),
{
    let ghost f = |m: Map<Seq<char>, Datum>|
        with_change(m, change@, texts(config.workspace_names@), config.launcher@);
    match change {
        Change::Rule(exe, workspace) => {
            assert(f =~= (|m: Map<Seq<char>, Datum>| with_app_rule(m, exe@, *workspace)));
            save_app_rule(text, exe.as_str(), *workspace)
        },
        Change::Launcher => {
            assert(f =~= (|m: Map<Seq<char>, Datum>|
                m.insert("launcher"@, launcher_list(config.launcher@))));
            save_launcher(text, &config.launcher)
        },
        Change::Names => {
            assert(f =~= (|m: Map<Seq<char>, Datum>|
                m.insert("workspace_names"@, text_list(texts(config.workspace_names@)))));
            save_workspace_names(text, &config.workspace_names)
        },
        Change::Color(hex) => {
            assert(f =~= (|m: Map<Seq<char>, Datum>|
                m.insert("active_border_color"@, Datum::Text(hex@))));
            save_border_color(text, hex.as_str())
        },
        Change::Thickness(t) => {
            assert(f =~= (|m: Map<Seq<char>, Datum>|
                m.insert("border_thickness"@, Datum::Integer(*t as i64))));
            save_border_thickness(text, *t)
        },
        Change::Workspaces(n) => {
            assert(f =~= (|m: Map<Seq<char>, Datum>|
                m.insert("workspaces"@, Datum::Integer(*n as i64))));
            save_workspaces(text, *n)
        },
        Change::Calendar(source) => {
            assert(f =~= (|m: Map<Seq<char>, Datum>|
                m.insert("calendar_source"@, Datum::Text(source@))));
            save_calendar_source(text, source.as_str())
        },
    }
}

// -------------------------------------------------------------------- laws

/// The chord that settings bind to an action.
pub open spec fn binding_in(m: Map<Seq<char>, Datum>, action: Seq<char>) -> Option<Seq<char>> {
    match section_of(m, "keybindings"@) {
        Some(s) => if s.contains_key(action) {
            match s[action] {
                Datum::Text(c) => Some(c),
                _ => None,
            }
        } else {
            None
        },
        None => None,
    }
}

/// The workspace that settings give to a program.
pub open spec fn rule_in(m: Map<Seq<char>, Datum>, exe: Seq<char>) -> Option<i64> {
    match section_of(m, "app_rules"@) {
        Some(s) => if s.contains_key(exe) {
            match s[exe] {
                Datum::Integer(n) => Some(n),
                _ => None,
            }
        } else {
            None
        },
        None => None,
    }
}

/// A chord that was saved is in the file when it is read again, and every
/// other setting of the file is what it was.
pub proof fn law_saved_chord_is_read(
    text: Seq<char>,
    r: Result<String, String>,
    action: Seq<char>,
    chord: Seq<char>,
)
    requires
        saved(r, text, |m: Map<Seq<char>, Datum>| with_keybinding(m, action, chord)),
        text.len() > 0 ==> (parsed(text) matches Ok(m) && writable(m) && section_of(
            m,
            "keybindings"@,
        ) is Some),
        action != "$__toml_private_datetime"@,
        quiet_text(chord),
    ensures
        exists|n: Map<Seq<char>, Datum>|
            #[trigger] reads_as(r, n) && kept_but(parsed(text)->Ok_0, n, "keybindings"@)
                && binding_in(n, action) == Some(chord),
{
    reveal_strlit("keybindings");
    reveal_strlit("$__toml_private_datetime");
    let m = parsed(text)->Ok_0;
    let s = section_of(m, "keybindings"@)->0;
    let n = with_keybinding(m, action, chord);
    let t = s.insert(action, Datum::Text(chord));
    if m.contains_key("keybindings"@) {
        assert(plain(m["keybindings"@], 79));
        assert(plain_settings(s, 79));
    }
    assert(plain_settings(t, 79));
    assert(plain(Datum::Section(t), 79));
    assert("keybindings"@.len() != "$__toml_private_datetime"@.len());
    assert(writable(n));
    assert(reads_as(r, n));
}

/// A setting that was saved is in the file when it is read again, and every
/// other setting of the file is what it was.
pub proof fn law_saved_setting_is_read(
    text: Seq<char>,
    r: Result<String, String>,
    key: Seq<char>,
    value: Datum,
)
    requires
        saved(r, text, |m: Map<Seq<char>, Datum>| m.insert(key, value)),
        text.len() > 0 ==> (parsed(text) matches Ok(m) && writable(m)),
        key != "$__toml_private_datetime"@,
        plain(value, 79),
    ensures
        exists|n: Map<Seq<char>, Datum>|
            #[trigger] reads_as(r, n) && kept_but(parsed(text)->Ok_0, n, key) && n.contains_key(
                key,
            ) && n[key] == value,
{
    let m = parsed(text)->Ok_0;
    let n = m.insert(key, value);
    assert(writable(n));
    assert(reads_as(r, n));
}

/// A rule for a program that was saved is in the file when it is read again,
/// one that was removed is not, and every other setting of the file is what
/// it was.
pub proof fn law_saved_rule_is_read(
    text: Seq<char>,
    r: Result<String, String>,
    exe: Seq<char>,
    workspace: Option<usize>,
)
    requires
        saved(r, text, |m: Map<Seq<char>, Datum>| with_app_rule(m, exe, workspace)),
        text.len() > 0 ==> (parsed(text) matches Ok(m) && writable(m) && section_of(
            m,
            "app_rules"@,
        ) is Some),
        exe != "$__toml_private_datetime"@,
    ensures
        exists|n: Map<Seq<char>, Datum>|
            #[trigger] reads_as(r, n) && kept_but(parsed(text)->Ok_0, n, "app_rules"@)
                && rule_in(n, exe) == (match workspace {
                Some(w) => Some(w as i64),
                None => None,
            }),
{
    reveal_strlit("app_rules");
    reveal_strlit("$__toml_private_datetime");
    let m = parsed(text)->Ok_0;
    let s = section_of(m, "app_rules"@)->0;
    let n = with_app_rule(m, exe, workspace);
    let t = match workspace {
        Some(w) => s.insert(exe, Datum::Integer(w as i64)),
        None => s.remove(exe),
    };
    if m.contains_key("app_rules"@) {
        assert(plain(m["app_rules"@], 79));
        assert(plain_settings(s, 79));
    }
    assert(plain_settings(t, 79));
    assert(plain(Datum::Section(t), 79));
    assert("app_rules"@.len() != "$__toml_private_datetime"@.len());
    assert(writable(n));
    assert(reads_as(r, n));
}

/// The names of the workspaces, the list of the launcher, numbers and texts
/// are all values that read back, as far as no text in them holds 256 equal
/// quotes in a row.
pub proof fn law_own_values_read_back(
    names: Seq<Seq<char>>,
    entries: Seq<LauncherEntry>,
    n: i64,
    text: Seq<char>,
)
    requires
        forall|i: int| 0 <= i < names.len() ==> quiet_text(#[trigger] names[i]),
        forall|i: int| 0 <= i < entries.len() ==> quiet_entry(#[trigger] entries[i]@),
        quiet_text(text),
    ensures
        plain(text_list(names), 79),
        plain(launcher_list(entries), 79),
        plain(Datum::Integer(n), 79),
        plain(Datum::Text(text), 79),
{
    let v = names.map_values(|n: Seq<char>| Datum::Text(n));
    assert forall|i: int| 0 <= i < v.len() implies plain(#[trigger] v[i], 78) by {
        assert(v[i] == Datum::Text(names[i]));
    }
    assert(plain_list(v, 79));
    let w = entries.map_values(|e: LauncherEntry| Datum::Section(entry_section(e@)));
    assert forall|i: int| 0 <= i < w.len() implies plain(#[trigger] w[i], 78) by {
        let m = entry_section(entries[i]@);
        reveal_strlit("name");
        reveal_strlit("command");
        reveal_strlit("args");
        reveal_strlit("dir");
        reveal_strlit("key");
        reveal_strlit("group");
        reveal_strlit("$__toml_private_datetime");
        assert forall|k: Seq<char>| #[trigger] m.contains_key(k) implies k
            != "$__toml_private_datetime"@ && plain(m[k], 77) by {
            assert(k.len() <= 7);
            assert(quiet_entry(entries[i]@));
            assert(m[k] is Text && quiet_text(m[k]->Text_0));
        }
        assert(plain_settings(m, 78));
        assert(w[i] == Datum::Section(m));
    }
    assert(plain_list(w, 79));
}

/// The text that a key holds, an empty one where there is none.
pub open spec fn text_at(m: Map<Seq<char>, Datum>, key: Seq<char>) -> Seq<char> {
    if m.contains_key(key) {
        match m[key] {
            Datum::Text(s) => s,
            _ => Seq::empty(),
        }
    } else {
        Seq::empty()
    }
}

/// The launcher entry that a section describes; what is left out is empty.
pub open spec fn entry_in(d: Datum) -> EntryView {
    let m = match d {
        Datum::Section(m) => m,
        _ => no_settings(),
    };
    EntryView {
        name: text_at(m, "name"@),
        command: text_at(m, "command"@),
        args: text_at(m, "args"@),
        dir: text_at(m, "dir"@),
        key: text_at(m, "key"@),
        group: text_at(m, "group"@),
    }
}

/// The launcher entries that settings describe.
pub open spec fn launcher_in(m: Map<Seq<char>, Datum>) -> Seq<EntryView> {
    if m.contains_key("launcher"@) {
        match m["launcher"@] {
            Datum::List(s) => s.map_values(|d: Datum| entry_in(d)),
            _ => Seq::empty(),
        }
    } else {
        Seq::empty()
    }
}

proof fn lemma_text_at(m: Map<Seq<char>, Datum>, key: Seq<char>, text: Seq<char>)
    requires
        !m.contains_key(key),
    ensures
        text_at(with_text(m, key, text), key) == text,
        forall|k: Seq<char>| k != key ==> text_at(with_text(m, key, text), k) == #[trigger] text_at(m, k),
        forall|k: Seq<char>|
            k != key ==> with_text(m, key, text).contains_key(k) == #[trigger] m.contains_key(k),
{
    if text.len() == 0 {
        assert(text =~= Seq::<char>::empty());
    }
}

/// The section that is written for a launcher entry describes that entry, its
/// empty fields included.
pub proof fn law_section_gives_back_the_entry(e: EntryView)
    ensures
        entry_in(Datum::Section(entry_section(e))) == e,
{
    reveal_strlit("name");
    reveal_strlit("command");
    reveal_strlit("args");
    reveal_strlit("dir");
    reveal_strlit("key");
    reveal_strlit("group");
    assert("name"@.len() == 4 && "args"@.len() == 4 && "command"@.len() == 7 && "dir"@.len() == 3
        && "key"@.len() == 3 && "group"@.len() == 5);
    assert("args"@ != "name"@) by {
        assert("args"@[0] != "name"@[0]);
    }
    assert("dir"@ != "key"@) by {
        assert("dir"@[0] != "key"@[0]);
    }
    let a = no_settings().insert("name"@, Datum::Text(e.name)).insert(
        "command"@,
        Datum::Text(e.command),
    );
    let b = with_text(a, "args"@, e.args);
    let c = with_text(b, "dir"@, e.dir);
    let d = with_text(c, "key"@, e.key);
    assert(text_at(a, "name"@) == e.name && text_at(a, "command"@) == e.command);
    lemma_text_at(a, "args"@, e.args);
    assert(!b.contains_key("dir"@) && !b.contains_key("key"@) && !b.contains_key("group"@));
    lemma_text_at(b, "dir"@, e.dir);
    assert(!c.contains_key("key"@) && !c.contains_key("group"@));
    lemma_text_at(c, "key"@, e.key);
    assert(!d.contains_key("group"@));
    lemma_text_at(d, "group"@, e.group);
    let s = entry_section(e);
    assert(s == with_text(d, "group"@, e.group));
    assert(text_at(s, "name"@) == text_at(d, "name"@));
    assert(text_at(s, "command"@) == text_at(d, "command"@));
    assert(text_at(s, "args"@) == text_at(d, "args"@));
    assert(text_at(s, "dir"@) == text_at(d, "dir"@));
    assert(text_at(s, "key"@) == text_at(d, "key"@));
    assert(text_at(d, "name"@) == text_at(c, "name"@));
    assert(text_at(d, "command"@) == text_at(c, "command"@));
    assert(text_at(d, "args"@) == text_at(c, "args"@));
    assert(text_at(d, "dir"@) == text_at(c, "dir"@));
    assert(text_at(c, "name"@) == text_at(b, "name"@));
    assert(text_at(c, "command"@) == text_at(b, "command"@));
    assert(text_at(c, "args"@) == text_at(b, "args"@));
    assert(text_at(b, "name"@) == text_at(a, "name"@));
    assert(text_at(b, "command"@) == text_at(a, "command"@));
}

/// The launcher entries that were saved are in the file when it is read
/// again, in their order and with all their fields, and every other setting of
/// the file is what it was.
pub proof fn law_saved_launcher_is_read(
    text: Seq<char>,
    r: Result<String, String>,
    entries: Seq<LauncherEntry>,
)
    requires
        saved(r, text, |m: Map<Seq<char>, Datum>| m.insert("launcher"@, launcher_list(entries))),
        text.len() > 0 ==> (parsed(text) matches Ok(m) && writable(m)),
        forall|i: int| 0 <= i < entries.len() ==> quiet_entry(#[trigger] entries[i]@),
    ensures
        exists|n: Map<Seq<char>, Datum>|
            #[trigger] reads_as(r, n) && kept_but(parsed(text)->Ok_0, n, "launcher"@)
                && launcher_in(n) == entries_of(entries),
{
    reveal_strlit("launcher");
    reveal_strlit("$__toml_private_datetime");
    reveal_strlit("");
    assert("launcher"@.len() != "$__toml_private_datetime"@.len());
    let m = parsed(text)->Ok_0;
    let n = m.insert("launcher"@, launcher_list(entries));
    law_own_values_read_back(Seq::empty(), entries, 0, ""@);
    assert(writable(n));
    assert(reads_as(r, n));
    let s = entries.map_values(|e: LauncherEntry| Datum::Section(entry_section(e@)));
    assert forall|i: int| 0 <= i < entries.len() implies #[trigger] launcher_in(n)[i]
        == entries[i]@ by {
        assert(s[i] == Datum::Section(entry_section(entries[i]@)));
        law_section_gives_back_the_entry(entries[i]@);
    }
    assert(launcher_in(n) =~= entries_of(entries));
}

/// Every key but one holds after a change what it held before, and no other
/// key was added.
pub open spec fn kept_but(
    before: Map<Seq<char>, Datum>,
    after: Map<Seq<char>, Datum>,
    key: Seq<char>,
) -> bool {
    forall|k: Seq<char>|
        k != key ==> (#[trigger] after.contains_key(k) == before.contains_key(k)) && (
        before.contains_key(k) ==> after[k] == before[k])
}

/// Saving one setting keeps every other one.
pub proof fn law_other_settings_are_kept(
    m: Map<Seq<char>, Datum>,
    action: Seq<char>,
    chord: Seq<char>,
    exe: Seq<char>,
    workspace: Option<usize>,
    key: Seq<char>,
    value: Datum,
)
    ensures
        kept_but(m, with_keybinding(m, action, chord), "keybindings"@),
        kept_but(m, with_app_rule(m, exe, workspace), "app_rules"@),
        kept_but(m, m.insert(key, value), key),
{
}

/// Saving one chord keeps those of the other actions, and a rule for one
/// program keeps the rules for the others.
pub proof fn law_other_entries_are_kept(
    m: Map<Seq<char>, Datum>,
    action: Seq<char>,
    chord: Seq<char>,
    exe: Seq<char>,
    workspace: Option<usize>,
)
    ensures
        section_of(m, "keybindings"@) is Some ==> section_of(
            with_keybinding(m, action, chord),
            "keybindings"@,
        ) is Some && kept_but(
            section_of(m, "keybindings"@)->0,
            section_of(with_keybinding(m, action, chord), "keybindings"@)->0,
            action,
        ) && (section_of(with_keybinding(m, action, chord), "keybindings"@)->0)[action]
            == Datum::Text(chord),
        section_of(m, "app_rules"@) is Some ==> section_of(
            with_app_rule(m, exe, workspace),
            "app_rules"@,
        ) is Some && kept_but(
            section_of(m, "app_rules"@)->0,
            section_of(with_app_rule(m, exe, workspace), "app_rules"@)->0,
            exe,
        ),
{
}

} // verus!
