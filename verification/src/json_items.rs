//! Reading credential records in any JSON layout: `serde_json` parses the text, and the
//! records are assembled here, field by field, from the values it finds, with the rules
//! by which a derived `Deserialize` reads a struct (from an object, by member name, with
//! members in any order and unknown members ignored; or from an array, by position).
use vstd::prelude::*;
use vstd::string::StringExecFns;
use crate::text::{decimal, decimal_string};
use crate::manifest::{CredentialGeneration, CredentialManifest, generation_view, generation_views};
use crate::types::{TokenData, opt_view};

verus! {

/// One JSON value as the records are read from it: its kind, and the content of a string, of
/// a number that is an unsigned integer, and the length of an array.
pub enum JsonItem {
    Null,
    Bool(bool),
    Unsigned(u64),
    OtherNumber,
    Str(String),
    Array(usize),
    Object,
}

/// A `JsonItem` by content.
pub enum JsonItemView {
    Null,
    Bool(bool),
    Unsigned(u64),
    OtherNumber,
    Str(Seq<char>),
    Array(nat),
    Object,
}

pub open spec fn item_view(i: JsonItem) -> JsonItemView {
    match i {
        JsonItem::Null => JsonItemView::Null,
        JsonItem::Bool(b) => JsonItemView::Bool(b),
        JsonItem::Unsigned(u) => JsonItemView::Unsigned(u),
        JsonItem::OtherNumber => JsonItemView::OtherNumber,
        JsonItem::Str(s) => JsonItemView::Str(s@),
        JsonItem::Array(n) => JsonItemView::Array(n as nat),
        JsonItem::Object => JsonItemView::Object,
    }
}

/// The value that `serde_json` finds at JSON pointer `pointer` in the JSON text `text`, or
/// `None` where the text is no JSON text or there is no value there.
pub uninterp spec fn json_item_at(text: Seq<char>, pointer: Seq<char>) -> Option<JsonItemView>;

/// `serde_json::from_str::<serde_json::Value>`, then `Value::pointer`, the value found
/// told apart by its variant (a number by `Number::as_u64`, an array by its length).
#[verifier::external_body]
fn json_item(text: &str, pointer: &str) -> (r: Option<JsonItem>)
    ensures
        match r {
            Some(i) => json_item_at(text@, pointer@) == Some(item_view(i)),
            None => json_item_at(text@, pointer@) is None,
        },
{
    let value: serde_json::Value = serde_json::from_str(text).ok()?;
    Some(match value.pointer(pointer)? {
        serde_json::Value::Null => JsonItem::Null,
        serde_json::Value::Bool(b) => JsonItem::Bool(*b),
        serde_json::Value::Number(n) => match n.as_u64() {
            Some(u) => JsonItem::Unsigned(u),
            None => JsonItem::OtherNumber,
        },
        serde_json::Value::String(s) => JsonItem::Str(s.clone()),
        serde_json::Value::Array(a) => JsonItem::Array(a.len()),
        serde_json::Value::Object(_) => JsonItem::Object,
    })
}

/// The pointer to member `key` of the object at `base`.
pub open spec fn key_pointer(base: Seq<char>, key: Seq<char>) -> Seq<char> {
    base + "/"@ + key
}

/// The pointer to element `i` of the array at `base`.
pub open spec fn index_pointer(base: Seq<char>, i: nat) -> Seq<char> {
    base + "/"@ + decimal(i)
}

/// The pointer to field `index` (named `key`) of a struct read from the value at `base`:
/// by name from an object, by position from an array.
pub open spec fn field_pointer(text: Seq<char>, base: Seq<char>, key: Seq<char>, index: nat) -> Seq<char> {
    if json_item_at(text, base) == Some(JsonItemView::Object) { key_pointer(base, key) } else { index_pointer(base, index) }
}

/// The value at `base` can hold a struct of `required` to `fields` fields: an object, or an
/// array of that many elements.
pub open spec fn struct_form(text: Seq<char>, base: Seq<char>, required: nat, fields: nat) -> bool {
    match json_item_at(text, base) {
        Some(JsonItemView::Object) => true,
        Some(JsonItemView::Array(n)) => required <= n <= fields,
        _ => false,
    }
}

/// A `u8` read from the value at `p`.
pub open spec fn u8_at(text: Seq<char>, p: Seq<char>) -> Option<u8> {
    match json_item_at(text, p) {
        Some(JsonItemView::Unsigned(u)) => if u <= 255 { Some(u as u8) } else { None },
        _ => None,
    }
}

/// A `u16` read from the value at `p`.
pub open spec fn u16_at(text: Seq<char>, p: Seq<char>) -> Option<u16> {
    match json_item_at(text, p) {
        Some(JsonItemView::Unsigned(u)) => if u <= 65535 { Some(u as u16) } else { None },
        _ => None,
    }
}

/// A `String` read from the value at `p`.
pub open spec fn string_at(text: Seq<char>, p: Seq<char>) -> Option<Seq<char>> {
    match json_item_at(text, p) {
        Some(JsonItemView::Str(s)) => Some(s),
        _ => None,
    }
}

/// An `Option<String>` read from the value at `p` (`Some(None)` where it is `null` or absent).
pub open spec fn optional_string_at(text: Seq<char>, p: Seq<char>) -> Option<Option<Seq<char>>> {
    match json_item_at(text, p) {
        None => Some(None),
        Some(JsonItemView::Null) => Some(None),
        Some(JsonItemView::Str(s)) => Some(Some(s)),
        _ => None,
    }
}

/// A generation read from the struct at `base`.
pub open spec fn generation_at(text: Seq<char>, base: Seq<char>) -> Option<(Seq<char>, u16, u16, u16)> {
    if !struct_form(text, base, 4, 4) {
        None
    } else {
        let id = string_at(text, field_pointer(text, base, "id"@, 0));
        let a = u16_at(text, field_pointer(text, base, "id_token_chunks"@, 1));
        let b = u16_at(text, field_pointer(text, base, "access_token_chunks"@, 2));
        let c = u16_at(text, field_pointer(text, base, "refresh_token_chunks"@, 3));
        if id is Some && a is Some && b is Some && c is Some {
            Some((id->0, a->0, b->0, c->0))
        } else {
            None
        }
    }
}

/// The generations read from the first `n` elements of the array at `p`.
pub open spec fn generations_at(text: Seq<char>, p: Seq<char>, n: nat) -> Option<Seq<(Seq<char>, u16, u16, u16)>>
    decreases n,
{
    if n == 0 {
        Some(Seq::empty())
    } else {
        match (generations_at(text, p, (n - 1) as nat), generation_at(text, index_pointer(p, (n - 1) as nat))) {
            (Some(gs), Some(g)) => Some(gs.push(g)),
            _ => None,
        }
    }
}

/// The stale generations read from field `p` of a manifest: an array of generations, or none
/// at all where the field is absent (its default).
pub open spec fn stale_at(text: Seq<char>, p: Seq<char>) -> Option<Seq<(Seq<char>, u16, u16, u16)>> {
    match json_item_at(text, p) {
        None => Some(Seq::empty()),
        Some(JsonItemView::Array(n)) => generations_at(text, p, n),
        _ => None,
    }
}

/// The manifest `serde_json` reads from `text`, by content: version, active generation and
/// stale generations.
pub open spec fn manifest_read(text: Seq<char>) -> Option<(u8, (Seq<char>, u16, u16, u16), Seq<(Seq<char>, u16, u16, u16)>)> {
    if !struct_form(text, ""@, 2, 3) {
        None
    } else {
        let v = u8_at(text, field_pointer(text, ""@, "version"@, 0));
        let a = generation_at(text, field_pointer(text, ""@, "active_generation"@, 1));
        let s = stale_at(text, field_pointer(text, ""@, "stale_generations"@, 2));
        if v is Some && a is Some && s is Some { Some((v->0, a->0, s->0)) } else { None }
    }
}

/// The legacy token record `serde_json` reads from `text`, by content.
pub open spec fn tokens_read(text: Seq<char>) -> Option<(Seq<char>, Seq<char>, Seq<char>, Option<Seq<char>>)> {
    if !struct_form(text, ""@, 4, 4) {
        None
    } else {
        let i = string_at(text, field_pointer(text, ""@, "id_token"@, 0));
        let a = string_at(text, field_pointer(text, ""@, "access_token"@, 1));
        let r = string_at(text, field_pointer(text, ""@, "refresh_token"@, 2));
        let d = optional_string_at(text, field_pointer(text, ""@, "account_id"@, 3));
        if i is Some && a is Some && r is Some && d is Some { Some((i->0, a->0, r->0, d->0)) } else { None }
    }
}

/// A manifest by content.
pub open spec fn manifest_content(m: CredentialManifest)
    -> (u8, (Seq<char>, u16, u16, u16), Seq<(Seq<char>, u16, u16, u16)>) {
    (m.version, generation_view(m.active_generation), generation_views(m.stale_generations@))
}

/// The value at `p`.
fn item(text: &str, p: &String) -> (r: Option<JsonItem>)
    ensures
        match r {
            Some(i) => json_item_at(text@, p@) == Some(item_view(i)),
            None => json_item_at(text@, p@) is None,
        },
{
    json_item(text, p.as_str())
}

fn key_ptr(base: &String, key: &str) -> (p: String)
    ensures
        p@ == key_pointer(base@, key@),
{
    let p = base.clone();
    let p = p.concat("/");
    p.concat(key)
}

fn index_ptr(base: &String, i: usize) -> (p: String)
    ensures
        p@ == index_pointer(base@, i as nat),
{
    let p = base.clone();
    let p = p.concat("/");
    p.concat(decimal_string(i as u64).as_str())
}

fn field_ptr(text: &str, base: &String, key: &str, index: usize) -> (p: String)
    ensures
        p@ == field_pointer(text@, base@, key@, index as nat),
{
    match item(text, base) {
        Some(JsonItem::Object) => key_ptr(base, key),
        _ => index_ptr(base, index),
    }
}

fn struct_shape(text: &str, base: &String, required: usize, fields: usize) -> (b: bool)
    ensures
        b == struct_form(text@, base@, required as nat, fields as nat),
{
    match item(text, base) {
        Some(JsonItem::Object) => true,
        Some(JsonItem::Array(n)) => required <= n && n <= fields,
        _ => false,
    }
}

fn read_u8(text: &str, p: &String) -> (r: Option<u8>)
    ensures
        r == u8_at(text@, p@),
{
    match item(text, p) {
        Some(JsonItem::Unsigned(u)) => if u <= 255 { Some(u as u8) } else { None },
        _ => None,
    }
}

fn read_u16(text: &str, p: &String) -> (r: Option<u16>)
    ensures
        r == u16_at(text@, p@),
{
    match item(text, p) {
        Some(JsonItem::Unsigned(u)) => if u <= 65535 { Some(u as u16) } else { None },
        _ => None,
    }
}

fn read_string(text: &str, p: &String) -> (r: Option<String>)
    ensures
        opt_view(r) == string_at(text@, p@),
{
    match item(text, p) {
        Some(JsonItem::Str(s)) => Some(s),
        _ => None,
    }
}

fn read_optional_string(text: &str, p: &String) -> (r: Option<Option<String>>)
    ensures
        match r {
            Some(o) => optional_string_at(text@, p@) == Some(opt_view(o)),
            None => optional_string_at(text@, p@) is None,
        },
{
    match item(text, p) {
        None => Some(None),
        Some(JsonItem::Null) => Some(None),
        Some(JsonItem::Str(s)) => Some(Some(s)),
        _ => None,
    }
}

/// Reads a generation from the struct at `base`.
pub fn read_generation_at(text: &str, base: &String) -> (r: Option<CredentialGeneration>)
    ensures
        match r {
            Some(g) => generation_at(text@, base@) == Some(generation_view(g)),
            None => generation_at(text@, base@) is None,
        },
{
    if !struct_shape(text, base, 4, 4) {
        return None;
    }
    let id = read_string(text, &field_ptr(text, base, "id", 0));
    let a = read_u16(text, &field_ptr(text, base, "id_token_chunks", 1));
    let b = read_u16(text, &field_ptr(text, base, "access_token_chunks", 2));
    let c = read_u16(text, &field_ptr(text, base, "refresh_token_chunks", 3));
    match (id, a, b, c) {
        (Some(id), Some(a), Some(b), Some(c)) => Some(CredentialGeneration {
            id,
            id_token_chunks: a,
            access_token_chunks: b,
            refresh_token_chunks: c,
        }),
        _ => None,
    }
}

/// Reads the stale generations from field `p` of a manifest.
fn read_stale_at(text: &str, p: &String) -> (r: Option<Vec<CredentialGeneration>>)
    ensures
        match r {
            Some(gs) => stale_at(text@, p@) == Some(generation_views(gs@)),
            None => stale_at(text@, p@) is None,
        },
{
    let n = match item(text, p) {
        None => {
            assert(generation_views(Seq::<CredentialGeneration>::empty()) =~= Seq::empty());
            return Some(Vec::new());
        },
        Some(JsonItem::Array(n)) => n,
        _ => { return None; },
    };
    let mut out: Vec<CredentialGeneration> = Vec::new();
    assert(generation_views(out@) =~= Seq::empty());
    for i in 0..n
        invariant
            json_item_at(text@, p@) == Some(JsonItemView::Array(n as nat)),
            generations_at(text@, p@, i as nat) == Some(generation_views(out@)),
    {
        let g = match read_generation_at(text, &index_ptr(p, i)) {
            Some(g) => g,
            None => {
                assert(generations_at(text@, p@, (i + 1) as nat) is None);
                proof { lemma_generations_fail(text@, p@, (i + 1) as nat, n as nat); }
                return None;
            },
        };
        let ghost before = out@;
        out.push(g);
        assert(generation_views(out@) =~= generation_views(before).push(generation_view(g)));
    }
    Some(out)
}

proof fn lemma_generations_fail(text: Seq<char>, p: Seq<char>, k: nat, n: nat)
    requires
        generations_at(text, p, k) is None,
        k <= n,
    ensures
        generations_at(text, p, n) is None,
    decreases n - k,
{
    if k < n {
        lemma_generations_fail(text, p, k + 1, n);
    }
}

/// Reads a manifest from a JSON text in any layout, as `serde_json` would.
pub fn read_manifest_value(text: &str) -> (r: Option<CredentialManifest>)
    ensures
        match r {
            Some(m) => manifest_read(text@) == Some(manifest_content(m)),
            None => manifest_read(text@) is None,
        },
{
    let root = String::new();
    assert(root@ == ""@) by { reveal_strlit(""); }
    if !struct_shape(text, &root, 2, 3) {
        return None;
    }
    let v = read_u8(text, &field_ptr(text, &root, "version", 0));
    let a = read_generation_at(text, &field_ptr(text, &root, "active_generation", 1));
    let s = read_stale_at(text, &field_ptr(text, &root, "stale_generations", 2));
    match (v, a, s) {
        (Some(version), Some(active_generation), Some(stale_generations)) => Some(CredentialManifest {
            version,
            active_generation,
            stale_generations,
        }),
        _ => None,
    }
}

/// Reads a legacy token record from a JSON text in any layout, as `serde_json` would.
pub fn read_tokens_value(text: &str) -> (r: Option<TokenData>)
    ensures
        match r {
            Some(t) => tokens_read(text@) == Some((t.id_token@, t.access_token@, t.refresh_token@,
                opt_view(t.account_id))),
            None => tokens_read(text@) is None,
        },
{
    let root = String::new();
    assert(root@ == ""@) by { reveal_strlit(""); }
    if !struct_shape(text, &root, 4, 4) {
        return None;
    }
    let i = read_string(text, &field_ptr(text, &root, "id_token", 0));
    let a = read_string(text, &field_ptr(text, &root, "access_token", 1));
    let r = read_string(text, &field_ptr(text, &root, "refresh_token", 2));
    let d = read_optional_string(text, &field_ptr(text, &root, "account_id", 3));
    match (i, a, r, d) {
        (Some(id_token), Some(access_token), Some(refresh_token), Some(account_id)) => Some(TokenData {
            id_token,
            access_token,
            refresh_token,
            account_id,
        }),
        _ => None,
    }
}

} // verus!
