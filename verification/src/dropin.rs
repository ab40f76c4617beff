//! The drop-in file that enables or disables a filter
//! (`conf.d/<name>.toml`): its TOML document as plain data, and the edit
//! that sets `filters.<name>.enabled` and keeps everything else.

use vstd::prelude::*;
use crate::commands::{Slot, ToggleError, toggle_check, toggle_error_text, toggle_error_message};

verus! {

/// A TOML value as the edit sees it: a table (its entries in order), a
/// boolean, or any other value, kept as the TOML text that writes it.
#[derive(Debug, PartialEq, Eq)]
pub enum TomlValue {
    Table(Vec<(String, TomlValue)>),
    Bool(bool),
    Other(String),
}

/// `k` is the first entry of `m` under `key`.
pub open spec fn key_at(m: Seq<(String, TomlValue)>, key: Seq<char>, k: int) -> bool {
    &&& 0 <= k < m.len()
    &&& m[k].0@ == key
    &&& forall|j: int| 0 <= j < k ==> m[j].0@ != key
}

/// Some entry of `m` is under `key`.
pub open spec fn has_key(m: Seq<(String, TomlValue)>, key: Seq<char>) -> bool {
    exists|k: int| 0 <= k < m.len() && m[k].0@ == key
}

/// The first entry under `key`.
pub open spec fn first_key(m: Seq<(String, TomlValue)>, key: Seq<char>) -> int {
    choose|k: int| key_at(m, key, k)
}

/// The value under `key`, as a TOML table yields it.
pub open spec fn entry_of(m: Seq<(String, TomlValue)>, key: Seq<char>) -> Option<TomlValue> {
    if has_key(m, key) {
        Some(m[first_key(m, key)].1)
    } else {
        None
    }
}

/// What a key holds, as far as the edit cares.
pub open spec fn slot_of(v: Option<TomlValue>) -> Slot {
    match v {
        None => Slot::Missing,
        Some(TomlValue::Table(_)) => Slot::Table,
        Some(_) => Slot::Other,
    }
}

/// The entries of a table value; none for anything else.
pub open spec fn table_of(v: Option<TomlValue>) -> Seq<(String, TomlValue)> {
    match v {
        Some(TomlValue::Table(t)) => t@,
        _ => Seq::empty(),
    }
}

/// `r` is `m` with `v` under `key`: the value of the entry under `key`
/// replaced in place, or, where there is none, a new entry appended; every
/// other entry kept, in order.
pub open spec fn put(m: Seq<(String, TomlValue)>, key: Seq<char>, v: TomlValue, r: Seq<(String, TomlValue)>) -> bool {
    if has_key(m, key) {
        r == m.update(first_key(m, key), (m[first_key(m, key)].0, v))
    } else {
        &&& r.len() == m.len() + 1
        &&& r.drop_last() == m
        &&& r.last().0@ == key
        &&& r.last().1 == v
    }
}

/// What a document's `filters` key and its `filters.<name>` key hold.
pub open spec fn filter_slots(doc: Seq<(String, TomlValue)>, name: Seq<char>) -> (Slot, Slot) {
    (
        slot_of(entry_of(doc, "filters"@)),
        slot_of(entry_of(table_of(entry_of(doc, "filters"@)), name)),
    )
}

/// `d` is `doc` with `filters.<name>.enabled` set to `enabled`: at each of
/// the three levels the key is put (tables created where missing, as new
/// last entries), and everything else is kept in order.
pub open spec fn toggled(doc: Seq<(String, TomlValue)>, name: Seq<char>, enabled: bool, d: Seq<(String, TomlValue)>) -> bool {
    let f_old = table_of(entry_of(doc, "filters"@));
    let e_old = table_of(entry_of(f_old, name));
    match entry_of(d, "filters"@) {
        Some(TomlValue::Table(fv)) => put(doc, "filters"@, TomlValue::Table(fv), d) && match entry_of(fv@, name) {
            Some(TomlValue::Table(ev)) => {
                &&& put(f_old, name, TomlValue::Table(ev), fv@)
                &&& put(e_old, "enabled"@, TomlValue::Bool(enabled), ev@)
            },
            _ => false,
        },
        _ => false,
    }
}

proof fn lemma_key_at_first(m: Seq<(String, TomlValue)>, key: Seq<char>, k: int)
    requires
        key_at(m, key, k),
    ensures
        has_key(m, key),
        first_key(m, key) == k,
{
    assert(m[k].0@ == key);
    let c = first_key(m, key);
    assert(key_at(m, key, c));
    if c < k {
        assert(m[c].0@ != key);
    } else if k < c {
        assert(m[k].0@ != key);
    }
}

proof fn lemma_first_from(m: Seq<(String, TomlValue)>, key: Seq<char>, i: int)
    requires
        0 <= i <= m.len(),
        forall|j: int| 0 <= j < i ==> m[j].0@ != key,
        exists|k: int| i <= k < m.len() && m[k].0@ == key,
    ensures
        key_at(m, key, first_key(m, key)),
    decreases m.len() - i,
{
    if m[i].0@ == key {
        lemma_key_at_first(m, key, i);
    } else {
        let k = choose|k: int| i <= k < m.len() && m[k].0@ == key;
        assert(k > i);
        lemma_first_from(m, key, i + 1);
    }
}

proof fn lemma_has_key_first(m: Seq<(String, TomlValue)>, key: Seq<char>)
    requires
        has_key(m, key),
    ensures
        key_at(m, key, first_key(m, key)),
{
    lemma_first_from(m, key, 0);
}

/// After a put, the key holds the new value and every other key what it
/// held.
pub proof fn lemma_put_entries(m: Seq<(String, TomlValue)>, key: Seq<char>, v: TomlValue, r: Seq<(String, TomlValue)>)
    requires
        put(m, key, v, r),
    ensures
        entry_of(r, key) == Some(v),
        forall|other: Seq<char>| other != key ==> #[trigger] entry_of(r, other) == entry_of(m, other),
{
    if has_key(m, key) {
        lemma_has_key_first(m, key);
        let k = first_key(m, key);
        assert(key_at(r, key, k));
        lemma_key_at_first(r, key, k);
        assert forall|other: Seq<char>| other != key implies #[trigger] entry_of(r, other) == entry_of(m, other) by {
            assert forall|i: int| 0 <= i < m.len() implies r[i].0@ == m[i].0@ by {}
            if has_key(m, other) {
                lemma_has_key_first(m, other);
                let j = first_key(m, other);
                assert(key_at(r, other, j));
                lemma_key_at_first(r, other, j);
                assert(j != k);
            } else {
                if has_key(r, other) {
                    let j = choose|j: int| 0 <= j < r.len() && r[j].0@ == other;
                    assert(m[j].0@ == other);
                }
            }
        }
    } else {
        let n = m.len() as int;
        assert forall|j: int| 0 <= j < n implies r[j].0@ != key by {
            assert(r[j] == r.drop_last()[j]);
        }
        assert(key_at(r, key, n));
        lemma_key_at_first(r, key, n);
        assert forall|other: Seq<char>| other != key implies #[trigger] entry_of(r, other) == entry_of(m, other) by {
            assert forall|i: int| 0 <= i < n implies r[i] == m[i] by {
                assert(r[i] == r.drop_last()[i]);
            }
            if has_key(m, other) {
                lemma_has_key_first(m, other);
                let j = first_key(m, other);
                assert(key_at(r, other, j));
                lemma_key_at_first(r, other, j);
            } else if has_key(r, other) {
                let j = choose|j: int| 0 <= j < r.len() && r[j].0@ == other;
                if j < n {
                    assert(m[j].0@ == other);
                }
            }
        }
    }
}

fn find_key(m: &Vec<(String, TomlValue)>, key: &str) -> (r: Option<usize>)
    ensures
        match r {
            Some(k) => key_at(m@, key@, k as int),
            None => !has_key(m@, key@),
        },
{
    let k = String::from_str(key);
    let mut i: usize = 0;
    while i < m.len()
        invariant
            i <= m.len(),
            k@ == key@,
            forall|j: int| 0 <= j < i ==> m@[j].0@ != key@,
        decreases m.len() - i,
    {
        if m[i].0 == k {
            return Some(i);
        }
        i = i + 1;
    }
    None
}

/// Puts `v` under `key` in a table's entries.
fn put_entry(m: Vec<(String, TomlValue)>, key: &str, v: TomlValue) -> (r: Vec<(String, TomlValue)>)
    ensures
        put(m@, key@, v, r@),
{
    let ghost m0 = m@;
    let mut m = m;
    match find_key(&m, key) {
        Some(k) => {
            proof {
                lemma_key_at_first(m0, key@, k as int);
            }
            let (s, _) = m.remove(k);
            m.insert(k, (s, v));
            assert(m@ =~= m0.update(k as int, (m0[k as int].0, v)));
        },
        None => {
            m.push((String::from_str(key), v));
            assert(m@.drop_last() =~= m0);
        },
    }
    m
}

/// Takes the table under `key` out of `m`: where it stood (its index and
/// its key as written) and its entries; `Err` where `key` holds no table.
fn open_table(m: &mut Vec<(String, TomlValue)>, key: &str) -> (r: Result<(Option<(usize, String)>, Vec<(String, TomlValue)>), ()>)
    ensures
        r is Err <==> slot_of(entry_of(old(m)@, key@)) == Slot::Other,
        r matches Ok((at, t)) ==> t@ == table_of(entry_of(old(m)@, key@)) && match at {
            Some((k, s)) => key_at(old(m)@, key@, k as int) && s == old(m)@[k as int].0
                && final(m)@ == old(m)@.remove(k as int),
            None => !has_key(old(m)@, key@) && final(m)@ == old(m)@,
        },
{
    match find_key(m, key) {
        None => Ok((None, Vec::new())),
        Some(k) => {
            proof {
                lemma_key_at_first(m@, key@, k as int);
            }
            let (s, v) = m.remove(k);
            match v {
                TomlValue::Table(t) => Ok((Some((k, s)), t)),
                _ => Err(()),
            }
        },
    }
}

/// Puts a table back where `open_table` took it from, or appends it.
fn close_table(m: &mut Vec<(String, TomlValue)>, at: Option<(usize, String)>, key: &str, v: TomlValue)
    requires
        at matches Some((k, _)) ==> k <= old(m)@.len(),
    ensures
        match at {
            Some((k, s)) => final(m)@ == old(m)@.insert(k as int, (s, v)),
            None => final(m)@.len() == old(m)@.len() + 1 && final(m)@.drop_last() == old(m)@
                && final(m)@.last().0@ == key@ && final(m)@.last().1 == v,
        },
{
    match at {
        Some((k, s)) => m.insert(k, (s, v)),
        None => {
            let ghost m0 = m@;
            m.push((String::from_str(key), v));
            assert(m@.drop_last() =~= m0);
        },
    }
}

/// A put of a table that `open_table` took out and `close_table` put back.
proof fn lemma_reopened(
    m: Seq<(String, TomlValue)>,
    key: Seq<char>,
    at: Option<(usize, String)>,
    mid: Seq<(String, TomlValue)>,
    v: TomlValue,
    r: Seq<(String, TomlValue)>,
)
    requires
        match at {
            Some((k, s)) => key_at(m, key, k as int) && s == m[k as int].0 && mid == m.remove(k as int)
                && r == mid.insert(k as int, (s, v)),
            None => !has_key(m, key) && mid == m && r.len() == mid.len() + 1 && r.drop_last() == mid
                && r.last().0@ == key && r.last().1 == v,
        },
    ensures
        put(m, key, v, r),
{
    if let Some((k, s)) = at {
        lemma_key_at_first(m, key, k as int);
        assert(r =~= m.update(k as int, (m[k as int].0, v)));
    }
}

/// Sets `filters.<name>.enabled` in a drop-in document. It refuses, with
/// the key in the way, where `filters` or `filters.<name>` holds something
/// other than a table; otherwise the result is the document with the key
/// set, tables created where missing, and everything else kept in order.
pub fn set_filter_enabled(doc: Vec<(String, TomlValue)>, name: &str, enabled: bool) -> (r: Result<Vec<(String, TomlValue)>, ToggleError>)
    ensures
        match toggle_check(filter_slots(doc@, name@).0, filter_slots(doc@, name@).1) {
            Err(e) => r == Err::<Vec<(String, TomlValue)>, ToggleError>(e),
            Ok(()) => r matches Ok(d) && toggled(doc@, name@, enabled, d@),
        },
{
    let ghost d0 = doc@;
    let mut doc = doc;
    let (fat, mut filters) = match open_table(&mut doc, "filters") {
        Err(()) => {
            return Err(ToggleError::FiltersNotTable);
        },
        Ok(o) => o,
    };
    let ghost d_mid = doc@;
    let ghost f_old = filters@;
    proof {
        if fat is None {
            assert(!has_key(f_old, name@));
        }
    }
    let (eat, entry) = match open_table(&mut filters, name) {
        Err(()) => {
            return Err(ToggleError::FilterNotTable);
        },
        Ok(o) => o,
    };
    let ghost f_mid = filters@;
    let ghost e_old = entry@;
    let entry = put_entry(entry, "enabled", TomlValue::Bool(enabled));
    let ghost ev = entry;
    close_table(&mut filters, eat, name, TomlValue::Table(entry));
    proof {
        lemma_reopened(f_old, name@, eat, f_mid, TomlValue::Table(ev), filters@);
        lemma_put_entries(f_old, name@, TomlValue::Table(ev), filters@);
    }
    let ghost fv = filters;
    close_table(&mut doc, fat, "filters", TomlValue::Table(filters));
    proof {
        lemma_reopened(d0, "filters"@, fat, d_mid, TomlValue::Table(fv), doc@);
        lemma_put_entries(d0, "filters"@, TomlValue::Table(fv), doc@);
    }
    Ok(doc)
}

/// What `toml` makes of a drop-in file's text: its top-level table, entry
/// by entry in the order the table keeps them, tables as tables, booleans
/// as booleans and every other value as the text `toml` writes it as; or
/// the parser's error text.
pub uninterp spec fn toml_doc_of(text: Seq<char>) -> Result<Seq<(String, TomlValue)>, Seq<char>>;

/// What `toml` writes for a document, each `Other` value read back from
/// its text; or the error text of reading or writing.
pub uninterp spec fn toml_text_of(doc: Seq<(String, TomlValue)>) -> Result<Seq<char>, Seq<char>>;

#[verifier::external_type_specification]
#[verifier::external_body]
pub struct ExTomlValue(toml::Value);

/// The conversion step of `toml_doc`: a `toml::Value`, variant for variant,
/// as a `TomlValue` (an other value written with its `Display`). What it
/// gives is stated as part of `toml_doc`'s result; it makes no promise of
/// its own.
#[verifier::external_body]
fn toml_value_of(v: toml::Value) -> TomlValue {
    match v {
        toml::Value::Table(t) => TomlValue::Table(t.into_iter().map(|(k, x)| (k, toml_value_of(x))).collect()),
        toml::Value::Boolean(b) => TomlValue::Bool(b),
        other => TomlValue::Other(other.to_string()),
    }
}

/// The conversion step of `toml_text`: a `TomlValue` as a `toml::Value`,
/// an other value read back with `toml::Value`'s `FromStr`. What it gives
/// is stated as part of `toml_text`'s result; it makes no promise of its
/// own.
#[verifier::external_body]
fn value_of_toml(v: &TomlValue) -> Result<toml::Value, String> {
    match v {
        TomlValue::Table(t) => Ok(toml::Value::Table(
            t.iter().map(|(k, x)| Ok((k.clone(), value_of_toml(x)?))).collect::<Result<toml::Table, String>>()?,
        )),
        TomlValue::Bool(b) => Ok(toml::Value::Boolean(*b)),
        TomlValue::Other(text) => text.parse::<toml::Value>().map_err(|e| e.to_string()),
    }
}

/// Parses a drop-in file's text with `toml::from_str` into a `toml::Table`
/// and hands it on as a document. What the parser accepts and reads is
/// named, not stated: the result is a function of the text.
#[verifier::external_body]
fn toml_doc(text: &str) -> (r: Result<Vec<(String, TomlValue)>, String>)
    ensures
        match (r, toml_doc_of(text@)) {
            (Ok(d), Ok(s)) => d@ == s,
            (Err(e), Err(t)) => e@ == t,
            _ => false,
        },
{
    match toml::from_str::<toml::Table>(text) {
        Ok(t) => Ok(t.into_iter().map(|(k, v)| (k, toml_value_of(v))).collect()),
        Err(e) => Err(e.to_string()),
    }
}

/// Writes a document as TOML with `toml::to_string`, after turning it back
/// into a `toml::Table`. The text written is named, not stated: it is a
/// function of the document.
#[verifier::external_body]
fn toml_text(doc: &Vec<(String, TomlValue)>) -> (r: Result<String, String>)
    ensures
        match (r, toml_text_of(doc@)) {
            (Ok(a), Ok(b)) => a@ == b,
            (Err(e), Err(t)) => e@ == t,
            _ => false,
        },
{
    let table = doc.iter().map(|(k, v)| Ok((k.clone(), value_of_toml(v)?))).collect::<Result<toml::Table, String>>()?;
    toml::to_string(&table).map_err(|e| e.to_string())
}

/// Why a drop-in file could not be written.
#[derive(Debug, PartialEq, Eq)]
pub enum DropinError {
    /// The configuration knows no filter by that name.
    UnknownFilter,
    /// The existing file is no TOML; the parser's error text.
    Parse(String),
    /// A key on the way to `filters.<name>.enabled` is no table.
    NotTable(ToggleError),
    /// The edited document could not be written as TOML; the error text.
    Write(String),
}

/// The text of a drop-in file that may be missing (read as empty).
pub open spec fn present_text(existing: Option<&str>) -> Seq<char> {
    match existing {
        Some(t) => t@,
        None => Seq::<char>::empty(),
    }
}

/// What writing the drop-in gives, from its present text: an unknown
/// filter, a text that is no TOML, or a key on the way that holds no table
/// refuses the edit; otherwise the text `toml` writes for the document with
/// `filters.<name>.enabled` set, or the error of writing it.
pub open spec fn dropin_outcome(text: Seq<char>, known: bool, name: Seq<char>, enabled: bool, r: Result<String, DropinError>) -> bool {
    if !known {
        r == Err::<String, DropinError>(DropinError::UnknownFilter)
    } else {
        match toml_doc_of(text) {
            Err(e) => r matches Err(DropinError::Parse(t)) && t@ == e,
            Ok(doc) => match toggle_check(filter_slots(doc, name).0, filter_slots(doc, name).1) {
                Err(t) => r == Err::<String, DropinError>(DropinError::NotTable(t)),
                Ok(()) => exists|d: Seq<(String, TomlValue)>|
                    #[trigger] toggled(doc, name, enabled, d) && match toml_text_of(d) {
                        Ok(out) => r matches Ok(s) && s@ == out,
                        Err(e) => r matches Err(DropinError::Write(t)) && t@ == e,
                    },
            },
        }
    }
}

/// The new text of the drop-in file that enables or disables filter
/// `name`, given the file's present text (`None` where there is no file)
/// and whether the configuration knows the filter; see `dropin_outcome`.
pub fn toggle_dropin(existing: Option<&str>, known: bool, name: &str, enabled: bool) -> (r: Result<String, DropinError>)
    ensures
        dropin_outcome(present_text(existing), known, name@, enabled, r),
{
    if !known {
        return Err(DropinError::UnknownFilter);
    }
    proof {
        reveal_strlit("");
    }
    let text = match existing {
        Some(t) => t,
        None => "",
    };
    assert(text@ =~= present_text(existing));
    let doc = match toml_doc(text) {
        Ok(d) => d,
        Err(e) => {
            let r = Err(DropinError::Parse(e));
            assert(dropin_outcome(text@, known, name@, enabled, r));
            return r;
        },
    };
    let ghost doc0 = doc@;
    let edited = match set_filter_enabled(doc, name, enabled) {
        Ok(d) => d,
        Err(t) => {
            let r = Err(DropinError::NotTable(t));
            assert(dropin_outcome(text@, known, name@, enabled, r));
            return r;
        },
    };
    let ghost d = edited@;
    let r = match toml_text(&edited) {
        Ok(s) => Ok(s),
        Err(e) => Err(DropinError::Write(e)),
    };
    assert(toggled(doc0, name@, enabled, d) && match toml_text_of(d) {
        Ok(out) => r matches Ok(s) && s@ == out,
        Err(e) => r matches Err(DropinError::Write(t)) && t@ == e,
    });
    assert(dropin_outcome(text@, known, name@, enabled, r));
    r
}

pub open spec fn dropin_error_text(e: DropinError, path: Seq<char>, name: Seq<char>) -> Seq<char> {
    match e {
        DropinError::UnknownFilter => "unknown filter `"@ + name + "`"@,
        DropinError::Parse(t) => t@,
        DropinError::NotTable(t) => toggle_error_text(t, path, name),
        DropinError::Write(t) => t@,
    }
}

/// How a refused edit is reported; `path` is the drop-in file.
pub fn dropin_error_message(e: &DropinError, path: &str, name: &str) -> (r: String)
    ensures
        r@ == dropin_error_text(*e, path@, name@),
{
    match e {
        DropinError::UnknownFilter => {
            let mut r = String::from_str("unknown filter `");
            r.append(name);
            r.append("`");
            r
        },
        DropinError::Parse(t) => t.clone(),
        DropinError::NotTable(t) => toggle_error_message(*t, path, name),
        DropinError::Write(t) => t.clone(),
    }
}

/// After a toggle, `filters.<name>.enabled` reads back as the value set,
/// and every other key, at each of the three levels, holds what it held.
pub proof fn law_toggle_sets_enabled(doc: Seq<(String, TomlValue)>, name: Seq<char>, enabled: bool, d: Seq<(String, TomlValue)>)
    requires
        toggled(doc, name, enabled, d),
    ensures
        forall|k: Seq<char>| k != "filters"@ ==> #[trigger] entry_of(d, k) == entry_of(doc, k),
        match entry_of(d, "filters"@) {
            Some(TomlValue::Table(fv)) => match entry_of(fv@, name) {
                Some(TomlValue::Table(ev)) => {
                    let f_old = table_of(entry_of(doc, "filters"@));
                    &&& entry_of(ev@, "enabled"@) == Some(TomlValue::Bool(enabled))
                    &&& forall|k: Seq<char>| k != "enabled"@ ==>
                        #[trigger] entry_of(ev@, k) == entry_of(table_of(entry_of(f_old, name)), k)
                    &&& forall|k: Seq<char>| k != name ==> #[trigger] entry_of(fv@, k) == entry_of(f_old, k)
                },
                _ => false,
            },
            _ => false,
        },
{
    let f_old = table_of(entry_of(doc, "filters"@));
    let e_old = table_of(entry_of(f_old, name));
    if let Some(TomlValue::Table(fv)) = entry_of(d, "filters"@) {
        lemma_put_entries(doc, "filters"@, TomlValue::Table(fv), d);
        if let Some(TomlValue::Table(ev)) = entry_of(fv@, name) {
            lemma_put_entries(f_old, name, TomlValue::Table(ev), fv@);
            lemma_put_entries(e_old, "enabled"@, TomlValue::Bool(enabled), ev@);
        }
    }
}

proof fn lemma_put_existing(m: Seq<(String, TomlValue)>, key: Seq<char>, v: TomlValue, r: Seq<(String, TomlValue)>)
    requires
        put(m, key, v, r),
        entry_of(m, key) is Some,
    ensures
        r.len() == m.len(),
        entry_of(m, key) == Some(v) ==> r == m,
{
    lemma_has_key_first(m, key);
    let k = first_key(m, key);
    if entry_of(m, key) == Some(v) {
        assert(r =~= m);
    }
}

/// A later toggle of the same filter wins and changes nothing else: it
/// succeeds, it adds no entry at any level (the tables the first one made
/// are found again), `enabled` reads back as the later value, and where
/// both set the same value the filter's table is as the first one left it.
pub proof fn law_toggle_again(
    d0: Seq<(String, TomlValue)>,
    name: Seq<char>,
    a: bool,
    d1: Seq<(String, TomlValue)>,
    b: bool,
    d2: Seq<(String, TomlValue)>,
)
    requires
        toggled(d0, name, a, d1),
        toggled(d1, name, b, d2),
    ensures
        toggle_check(filter_slots(d1, name).0, filter_slots(d1, name).1) == Ok::<(), ToggleError>(()),
        d2.len() == d1.len(),
        match (entry_of(d1, "filters"@), entry_of(d2, "filters"@)) {
            (Some(TomlValue::Table(f1)), Some(TomlValue::Table(f2))) => {
                &&& f2@.len() == f1@.len()
                &&& match (entry_of(f1@, name), entry_of(f2@, name)) {
                    (Some(TomlValue::Table(e1)), Some(TomlValue::Table(e2))) => {
                        &&& e2@.len() == e1@.len()
                        &&& entry_of(e2@, "enabled"@) == Some(TomlValue::Bool(b))
                        &&& a == b ==> e2@ == e1@
                    },
                    _ => false,
                }
            },
            _ => false,
        },
{
    law_toggle_sets_enabled(d0, name, a, d1);
    law_toggle_sets_enabled(d1, name, b, d2);
    if let Some(TomlValue::Table(f1)) = entry_of(d1, "filters"@) {
        if let Some(TomlValue::Table(f2)) = entry_of(d2, "filters"@) {
            lemma_put_existing(d1, "filters"@, TomlValue::Table(f2), d2);
            if let Some(TomlValue::Table(e1)) = entry_of(f1@, name) {
                if let Some(TomlValue::Table(e2)) = entry_of(f2@, name) {
                    lemma_put_existing(f1@, name, TomlValue::Table(e2), f2@);
                    lemma_put_existing(e1@, "enabled"@, TomlValue::Bool(b), e2@);
                }
            }
        }
    }
}

} // verus!
