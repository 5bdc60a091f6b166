//! Reading Freesound's JSON answers: which sounds a search page holds and what each
//! says of itself. The text is parsed by serde_json; which entries are kept, and with
//! what defaults, is decided here.

use vstd::prelude::*;

use crate::text::{decimal, decimal_text, push_text, string_of};

verus! {

#[verifier::external_type_specification]
#[verifier::external_body]
pub struct ExJsonValue(serde_json::Value);

/// A parsed JSON document, with the text it was parsed from.
pub struct JsonDocument {
    value: serde_json::Value,
    source: Ghost<Seq<char>>,
}

impl JsonDocument {
    /// The text this document was parsed from.
    pub closed spec fn source(&self) -> Seq<char> {
        self.source@
    }
}

/// One JSON value, as plain values: a number by its `u64` reading (where it has one)
/// and its JSON text, an array by its length.
pub enum JsonScalar {
    Null,
    Bool(bool),
    Number(Option<u64>, String),
    Text(String),
    Array(usize),
    Object,
}

/// What a `JsonScalar` holds, in spec terms.
pub enum JsonShape {
    Null,
    Bool(bool),
    Number(Option<u64>, Seq<char>),
    Text(Seq<char>),
    Array(nat),
    Object,
}

impl JsonScalar {
    pub open spec fn shape(&self) -> JsonShape {
        match self {
            JsonScalar::Null => JsonShape::Null,
            JsonScalar::Bool(b) => JsonShape::Bool(*b),
            JsonScalar::Number(u, t) => JsonShape::Number(*u, t@),
            JsonScalar::Text(t) => JsonShape::Text(t@),
            JsonScalar::Array(n) => JsonShape::Array(*n as nat),
            JsonScalar::Object => JsonShape::Object,
        }
    }
}

/// The message serde_json refuses a text with, or `None` where it parses.
pub uninterp spec fn json_error(text: Seq<char>) -> Option<Seq<char>>;

/// The value a JSON pointer (RFC 6901) designates in the document parsed from `text`.
pub uninterp spec fn json_at(text: Seq<char>, pointer: Seq<char>) -> Option<JsonShape>;

/// Parse a JSON text.
///
/// Calls `serde_json::from_str` into a `serde_json::Value`; a refusal is rendered with
/// the error's `Display`. Whether a text parses, and the message, are named.
#[verifier::external_body]
fn parse_json(text: &str) -> (doc: Result<JsonDocument, String>)
    ensures
        match doc {
            Ok(d) => d.source() == text@ && json_error(text@) is None,
            Err(e) => json_error(text@) == Some(e@),
        },
{
    match serde_json::from_str::<serde_json::Value>(text) {
        Ok(value) => Ok(JsonDocument { value, source: Ghost(text@) }),
        Err(e) => Err(e.to_string()),
    }
}

/// The value at a JSON pointer, as plain values.
///
/// Calls `serde_json::Value::pointer`, then tells the variants of the value found apart;
/// a number is read with `Number::as_u64` and rendered with its `Display`. What the
/// pointer finds in the document is named.
#[verifier::external_body]
fn value_at(doc: &JsonDocument, pointer: &str) -> (found: Option<JsonScalar>)
    ensures
        match found {
            Some(v) => json_at(doc.source(), pointer@) == Some(v.shape()),
            None => json_at(doc.source(), pointer@) is None,
        },
{
    Some(match doc.value.pointer(pointer)? {
        serde_json::Value::Null => JsonScalar::Null,
        serde_json::Value::Bool(b) => JsonScalar::Bool(*b),
        serde_json::Value::Number(n) => JsonScalar::Number(n.as_u64(), n.to_string()),
        serde_json::Value::String(s) => JsonScalar::Text(s.clone()),
        serde_json::Value::Array(a) => JsonScalar::Array(a.len()),
        serde_json::Value::Object(_) => JsonScalar::Object,
    })
}

/// What the library keeps of one sound; its duration stays the JSON number's text, for
/// the floating-point reading is done outside.
pub struct SoundFields {
    pub id: u64,
    pub name: String,
    pub username: String,
    pub license_url: String,
    pub duration: Option<String>,
    pub preview_url: String,
}

pub struct SoundView {
    pub id: u64,
    pub name: Seq<char>,
    pub username: Seq<char>,
    pub license_url: Seq<char>,
    pub duration: Option<Seq<char>>,
    pub preview_url: Seq<char>,
}

impl SoundFields {
    pub open spec fn view_sound(&self) -> SoundView {
        SoundView {
            id: self.id,
            name: self.name@,
            username: self.username@,
            license_url: self.license_url@,
            duration: match self.duration {
                Some(d) => Some(d@),
                None => None,
            },
            preview_url: self.preview_url@,
        }
    }
}

/// One page of search results.
pub struct PageFields {
    pub total: u64,
    pub page: u32,
    pub results: Vec<SoundFields>,
    pub has_more: bool,
}

/// A response that does not have the shape Freesound documents.
pub struct Malformed {
    pub reason: String,
}

/// The text at a pointer, where there is text.
pub open spec fn text_at(text: Seq<char>, pointer: Seq<char>) -> Option<Seq<char>> {
    match json_at(text, pointer) {
        Some(JsonShape::Text(s)) => Some(s),
        _ => None,
    }
}

/// The sound described by the object at `at`: it needs an id, a name, a username and a
/// licence entry and a high-quality preview. A username that is not text reads as
/// "unknown", a licence that is not text as no URL; a duration is kept where it is a
/// number.
pub open spec fn sound_at(text: Seq<char>, at: Seq<char>) -> Option<SoundView> {
    let id = json_at(text, at + "/id"@);
    let name = text_at(text, at + "/name"@);
    let username = json_at(text, at + "/username"@);
    let license = json_at(text, at + "/license"@);
    let preview = text_at(text, at + "/previews/preview-hq-mp3"@);
    match (id, name, username, license, preview) {
        (Some(JsonShape::Number(Some(id), _)), Some(name), Some(username), Some(license), Some(preview)) => Some(
            SoundView {
                id,
                name,
                username: match username {
                    JsonShape::Text(u) => u,
                    _ => "unknown"@,
                },
                license_url: match license {
                    JsonShape::Text(l) => l,
                    _ => Seq::empty(),
                },
                duration: match json_at(text, at + "/duration"@) {
                    Some(JsonShape::Number(_, d)) => Some(d),
                    _ => None,
                },
                preview_url: preview,
            },
        ),
        _ => None,
    }
}

/// Where the `i`th search result sits.
pub open spec fn result_pointer(i: nat) -> Seq<char> {
    "/results/"@ + decimal(i)
}

/// The usable sounds among the first `n` search results, in order.
pub open spec fn usable_results(text: Seq<char>, n: nat) -> Seq<SoundView>
    decreases n,
{
    if n == 0 {
        Seq::empty()
    } else {
        let rest = usable_results(text, (n - 1) as nat);
        match sound_at(text, result_pointer((n - 1) as nat)) {
            Some(s) => rest.push(s),
            None => rest,
        }
    }
}

/// What a search response comes to: the error serde_json gives, "no results array", or
/// the usable results with the count (0 where there is none) and whether a `next` page
/// is named.
pub open spec fn search_result(text: Seq<char>) -> Result<(u64, bool, Seq<SoundView>), Seq<char>> {
    match json_error(text) {
        Some(e) => Err(e),
        None => match json_at(text, "/results"@) {
            Some(JsonShape::Array(n)) => Ok(
                (
                    match json_at(text, "/count"@) {
                        Some(JsonShape::Number(Some(c), _)) => c,
                        _ => 0,
                    },
                    match json_at(text, "/next"@) {
                        Some(JsonShape::Null) => false,
                        Some(_) => true,
                        None => false,
                    },
                    usable_results(text, n),
                ),
            ),
            _ => Err("no results array"@),
        },
    }
}

pub open spec fn sound_views(sounds: Seq<SoundFields>) -> Seq<SoundView> {
    sounds.map_values(|s: SoundFields| s.view_sound())
}

fn concat(a: &str, b: &str) -> (joined: String)
    ensures
        joined@ == a@ + b@,
{
    let mut out: Vec<char> = Vec::new();
    push_text(&mut out, a);
    push_text(&mut out, b);
    string_of(out.as_slice())
}

fn text_value(doc: &JsonDocument, pointer: &str) -> (found: Option<String>)
    ensures
        match found {
            Some(s) => text_at(doc.source(), pointer@) == Some(s@),
            None => text_at(doc.source(), pointer@) is None,
        },
{
    match value_at(doc, pointer) {
        Some(JsonScalar::Text(s)) => Some(s),
        _ => None,
    }
}

/// The sound described by the object at `at` of a parsed document.
fn sound_from(doc: &JsonDocument, at: &str) -> (sound: Option<SoundFields>)
    ensures
        match sound {
            Some(s) => sound_at(doc.source(), at@) == Some(s.view_sound()),
            None => sound_at(doc.source(), at@) is None,
        },
{
    let id = match value_at(doc, concat(at, "/id").as_str()) {
        Some(JsonScalar::Number(Some(id), _)) => id,
        _ => return None,
    };
    let name = match text_value(doc, concat(at, "/name").as_str()) {
        Some(name) => name,
        None => return None,
    };
    let username = match value_at(doc, concat(at, "/username").as_str()) {
        Some(JsonScalar::Text(u)) => u,
        Some(_) => string_of(&['u', 'n', 'k', 'n', 'o', 'w', 'n']),
        None => return None,
    };
    let license_url = match value_at(doc, concat(at, "/license").as_str()) {
        Some(JsonScalar::Text(l)) => l,
        Some(_) => string_of(&[]),
        None => return None,
    };
    let preview_url = match text_value(doc, concat(at, "/previews/preview-hq-mp3").as_str()) {
        Some(p) => p,
        None => return None,
    };
    let duration = match value_at(doc, concat(at, "/duration").as_str()) {
        Some(JsonScalar::Number(_, d)) => Some(d),
        _ => None,
    };
    proof {
        reveal_strlit("unknown");
    }
    let sound = SoundFields { id, name, username, license_url, duration, preview_url };
    let ghost v = sound_at(doc.source(), at@);
    assert(v is Some);
    assert(sound.view_sound().id == v->0.id);
    assert(sound.view_sound().name == v->0.name);
    assert(sound.view_sound().username == v->0.username);
    assert(sound.view_sound().license_url == v->0.license_url);
    assert(sound.view_sound().duration == v->0.duration);
    assert(sound.view_sound().preview_url == v->0.preview_url);
    Some(sound)
}

/// Read one page of search results. The results are exactly the entries with an id, a
/// name, a username and licence entry and a high-quality preview, in order; `page` is
/// carried through.
pub fn search_page(text: &str, page: u32) -> (p: Result<PageFields, Malformed>)
    ensures
        match search_result(text@) {
            Ok((total, has_more, results)) => p matches Ok(f) && f.total == total && f.has_more
                == has_more && f.page == page && sound_views(f.results@) == results,
            Err(e) => p matches Err(m) && m.reason@ == e,
        },
{
    let doc = match parse_json(text) {
        Ok(doc) => doc,
        Err(e) => return Err(Malformed { reason: e }),
    };
    let n = match value_at(&doc, "/results") {
        Some(JsonScalar::Array(n)) => n,
        _ => {
            proof {
                reveal_strlit("no results array");
            }
            return Err(Malformed { reason: string_of(&['n', 'o', ' ', 'r', 'e', 's', 'u', 'l', 't', 's', ' ', 'a', 'r', 'r', 'a', 'y']) });
        },
    };
    let total = match value_at(&doc, "/count") {
        Some(JsonScalar::Number(Some(c), _)) => c,
        _ => 0,
    };
    let has_more = match value_at(&doc, "/next") {
        Some(JsonScalar::Null) => false,
        Some(_) => true,
        None => false,
    };
    let ghost source = doc.source();
    let mut results: Vec<SoundFields> = Vec::new();
    let mut i: usize = 0;
    while i < n
        invariant
            i <= n,
            source == doc.source(),
            source == text@,
            sound_views(results@) == usable_results(source, i as nat),
        decreases n - i,
    {
        let at = concat("/results/", decimal_text(i as u64).as_str());
        assert(at@ == result_pointer(i as nat));
        let ghost before = sound_views(results@);
        match sound_from(&doc, at.as_str()) {
            Some(s) => {
                results.push(s);
                assert(sound_views(results@) =~= before.push(results@.last().view_sound()));
            },
            None => {},
        }
        i = i + 1;
    }
    Ok(PageFields { total, page, results, has_more })
}

/// Read the answer for one sound: the sound, or why it is not one the library can use.
pub fn sound_response(text: &str, id: u64) -> (s: Result<SoundFields, Malformed>)
    ensures
        match json_error(text@) {
            Some(e) => s matches Err(m) && m.reason@ == e,
            None => match sound_at(text@, Seq::empty()) {
                Some(v) => s matches Ok(f) && f.view_sound() == v,
                None => s matches Err(m) && m.reason@ == "sound "@ + decimal(id as nat)
                    + " has no high-quality preview"@,
            },
        },
{
    let doc = match parse_json(text) {
        Ok(doc) => doc,
        Err(e) => return Err(Malformed { reason: e }),
    };
    assert(""@ =~= Seq::<char>::empty()) by {
        reveal_strlit("");
    }
    match sound_from(&doc, "") {
        Some(s) => Ok(s),
        None => {
            let mut out: Vec<char> = Vec::new();
            push_text(&mut out, "sound ");
            push_text(&mut out, decimal_text(id).as_str());
            push_text(&mut out, " has no high-quality preview");
            Err(Malformed { reason: string_of(out.as_slice()) })
        },
    }
}

} // verus!
