//! Calls into outside crates: the clock, random trade ids, lower-casing,
//! RFC 3339 timestamps and JSON lists. Each item here is trusted: its
//! contract is believed, not proved.
use vstd::prelude::*;

verus! {

/// Reads the clock through `chrono::Utc::now()` and returns
/// `DateTime::timestamp_micros` of it. `Utc::now` takes the system time's
/// distance from the Unix epoch (it panics when the clock reads before the
/// epoch), so what comes back is never negative; nothing else is claimed.
#[verifier::external_body]
pub(crate) fn utc_now_micros() -> (t: i64)
    ensures
        t >= 0,
{
    chrono::Utc::now().timestamp_micros()
}

/// `c` is a lower-case hexadecimal digit.
pub open spec fn is_lower_hex(c: char) -> bool {
    ('0' <= c && c <= '9') || ('a' <= c && c <= 'f')
}

/// `id` is a version-4 UUID written in the lower-case hyphenated form
/// `xxxxxxxx-xxxx-4xxx-yxxx-xxxxxxxxxxxx`: 36 characters, hyphens at 8, 13,
/// 18 and 23, the version digit `4` at 14, the variant digit (one of
/// `8 9 a b`) at 19, and lower-case hex digits everywhere else.
pub open spec fn is_uuid_v4_text(id: Seq<char>) -> bool {
    &&& id.len() == 36
    &&& id[8] == '-'
    &&& id[13] == '-'
    &&& id[18] == '-'
    &&& id[23] == '-'
    &&& id[14] == '4'
    &&& (id[19] == '8' || id[19] == '9' || id[19] == 'a' || id[19] == 'b')
    &&& forall|i: int|
        0 <= i < 36 && i != 8 && i != 13 && i != 18 && i != 23 ==> is_lower_hex(#[trigger] id[i])
}

/// A fresh random trade id: `uuid::Uuid::new_v4()` rendered by its `Display`
/// impl. `new_v4` masks random bits so that the version nibble is 4 and the
/// variant bits are `10`, and `Display` writes the 36-character lower-case
/// hyphenated form; that shape is all that is claimed, the other digits are
/// random. It panics when the system gives no random bytes.
#[verifier::external_body]
pub(crate) fn new_trade_id() -> (id: String)
    ensures
        is_uuid_v4_text(id@),
{
    uuid::Uuid::new_v4().to_string()
}

/// What `str::to_lowercase` gives for `text`: its Unicode lower-case mapping
/// (character by character, except that a final capital sigma depends on
/// its neighbours).
pub uninterp spec fn lowercase(text: Seq<char>) -> Seq<char>;

/// `str::to_lowercase`. Its result is named by `lowercase`; the Unicode case
/// tables it follows are not written out.
#[verifier::external_body]
pub(crate) fn to_lowercase(text: &str) -> (r: String)
    ensures
        r@ == lowercase(text@),
{
    text.to_lowercase()
}

/// The instant that an RFC 3339 timestamp names, in microseconds since the
/// Unix epoch, or nothing when the text is not such a timestamp.
pub uninterp spec fn rfc3339_instant_micros(text: Seq<char>) -> Option<i64>;

/// `chrono::DateTime::parse_from_rfc3339`, converted to UTC and read out
/// with `timestamp_micros`. Its result is named by `rfc3339_instant_micros`;
/// the grammar and the calendar arithmetic are not written out.
#[verifier::external_body]
pub(crate) fn parse_rfc3339_micros(text: &str) -> (r: Option<i64>)
    ensures
        r == rfc3339_instant_micros(text@),
{
    match chrono::DateTime::parse_from_rfc3339(text) {
        Ok(t) => Some(t.with_timezone(&chrono::Utc).timestamp_micros()),
        Err(_) => None,
    }
}

/// The views of a list of strings.
pub open spec fn string_views(s: Seq<String>) -> Seq<Seq<char>> {
    s.map_values(|x: String| x@)
}

/// The strings of the JSON array of strings `text`, or nothing when `text`
/// is not one.
pub uninterp spec fn json_string_list(text: Seq<char>) -> Option<Seq<Seq<char>>>;

/// `serde_json::from_str::<Vec<String>>`. Its result is named by
/// `json_string_list`; JSON's grammar and escapes are not written out.
#[verifier::external_body]
pub(crate) fn parse_json_string_list(text: &str) -> (r: Option<Vec<String>>)
    ensures
        r matches Some(v) ==> json_string_list(text@) == Some(string_views(v@)),
        r is None ==> json_string_list(text@) is None,
{
    serde_json::from_str::<Vec<String>>(text).ok()
}

/// The numbers of the JSON array of numbers `text`, each as
/// `serde_json::Number` renders it (shortest round-trip form, such as
/// `0.505` or `1`), or nothing when `text` is not such an array.
pub uninterp spec fn json_number_texts(text: Seq<char>) -> Option<Seq<Seq<char>>>;

/// `serde_json::from_str::<Vec<serde_json::Number>>`, each number rendered
/// by its `Display` impl. Its result is named by `json_number_texts`; the
/// grammar and the number formatting are not written out.
#[verifier::external_body]
pub(crate) fn parse_json_number_texts(text: &str) -> (r: Option<Vec<String>>)
    ensures
        r matches Some(v) ==> json_number_texts(text@) == Some(string_views(v@)),
        r is None ==> json_number_texts(text@) is None,
{
    match serde_json::from_str::<Vec<serde_json::Number>>(text) {
        Ok(numbers) => {
            let mut texts = Vec::new();
            for n in numbers.iter() {
                texts.push(n.to_string());
            }
            Some(texts)
        },
        Err(_) => None,
    }
}

} // verus!
