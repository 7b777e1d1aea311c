use vstd::prelude::*;
use vstd::utf8::{decode_utf8, valid_utf8};

use crate::error::SessionError;

verus! {

/// Attribute kind of a label (`CKA_LABEL`).
pub const ATTR_LABEL: u64 = 0x3;

/// Attribute kind of a key identifier (`CKA_ID`).
pub const ATTR_ID: u64 = 0x102;

/// One entry of a search template: an attribute kind and its raw value, if any.
pub struct RawAttr {
    pub kind: u64,
    pub value: Option<Vec<u8>>,
}

pub open spec fn bytes_view(value: Option<Vec<u8>>) -> Option<Seq<u8>> {
    match value {
        Some(b) => Some(b@),
        None => None,
    }
}

/// The text that a raw value holds: none when it is absent or not UTF-8.
pub open spec fn value_text(value: Option<Seq<u8>>) -> Option<Seq<char>> {
    match value {
        Some(b) => if valid_utf8(b) {
            Some(decode_utf8(b))
        } else {
            None
        },
        None => None,
    }
}

pub open spec fn is_filter_kind(kind: u64) -> bool {
    kind == ATTR_ID || kind == ATTR_LABEL
}

pub open spec fn text_view(t: Option<String>) -> Option<Seq<char>> {
    match t {
        Some(s) => Some(s@),
        None => None,
    }
}

pub open spec fn texts_view(texts: Seq<Option<String>>) -> Seq<Option<Seq<char>>> {
    texts.map_values(|t: Option<String>| text_view(t))
}

pub open spec fn filter_view(r: Result<Option<String>, SessionError>) -> Result<
    Option<Seq<char>>,
    SessionError,
> {
    match r {
        Ok(t) => Ok(text_view(t)),
        Err(e) => Err(e),
    }
}

/// The filter chosen by scanning the entries from position `i` on, where
/// `label` is the text of the first LABEL met before `i`. The first ID decides
/// and ends the scan; a recognised entry without text fails the scan.
pub open spec fn scan_filter(
    kinds: Seq<u64>,
    texts: Seq<Option<Seq<char>>>,
    i: int,
    label: Option<Seq<char>>,
) -> Result<Option<Seq<char>>, SessionError>
    decreases kinds.len() - i,
{
    if i >= kinds.len() {
        Ok(label)
    } else if kinds[i] == ATTR_ID {
        match texts[i] {
            Some(t) => Ok(Some(t)),
            None => Err(SessionError::ArgumentsInvalid),
        }
    } else if kinds[i] == ATTR_LABEL {
        match texts[i] {
            Some(t) => scan_filter(
                kinds,
                texts,
                i + 1,
                if label is Some {
                    label
                } else {
                    Some(t)
                },
            ),
            None => Err(SessionError::ArgumentsInvalid),
        }
    } else {
        scan_filter(kinds, texts, i + 1, label)
    }
}

pub open spec fn template_kinds(t: Seq<RawAttr>) -> Seq<u64> {
    t.map_values(|a: RawAttr| a.kind)
}

/// The text of each recognised entry; other entries are never read.
pub open spec fn template_texts(t: Seq<RawAttr>) -> Seq<Option<Seq<char>>> {
    t.map_values(
        |a: RawAttr|
            if is_filter_kind(a.kind) {
                value_text(bytes_view(a.value))
            } else {
                None
            },
    )
}

pub open spec fn template_view(template: Option<&Vec<RawAttr>>) -> Option<Seq<RawAttr>> {
    match template {
        Some(t) => Some(t@),
        None => None,
    }
}

/// The key filter that a template asks for: `Ok(None)` matches every key.
pub open spec fn key_filter(template: Option<Seq<RawAttr>>) -> Result<
    Option<Seq<char>>,
    SessionError,
> {
    match template {
        Some(t) => scan_filter(template_kinds(t), template_texts(t), 0, None),
        None => Ok(None),
    }
}

/// Relies on `String::from_utf8`: it succeeds exactly on valid UTF-8 and then
/// holds the decoded characters.
#[verifier::external_body]
fn decode_text(bytes: &Vec<u8>) -> (r: Option<String>)
    ensures
        r is Some <==> valid_utf8(bytes@),
        r is Some ==> r->0@ == decode_utf8(bytes@),
{
    String::from_utf8(bytes.clone()).ok()
}

/// Picks the filter from the attribute kinds of a template and the decoded
/// text of each entry (`None` where the value is absent or not text).
pub fn choose_filter(kinds: &Vec<u64>, texts: &Vec<Option<String>>) -> (r: Result<
    Option<String>,
    SessionError,
>)
    requires
        kinds.len() == texts.len(),
    ensures
        filter_view(r) == scan_filter(kinds@, texts_view(texts@), 0, None),
{
    let ghost tv = texts_view(texts@);
    let mut label: Option<String> = None;
    let mut i: usize = 0;
    while i < kinds.len()
        invariant
            0 <= i <= kinds.len(),
            kinds.len() == texts.len(),
            tv == texts_view(texts@),
            scan_filter(kinds@, tv, 0, None) == scan_filter(kinds@, tv, i as int, text_view(label)),
        decreases kinds.len() - i,
    {
        let kind = kinds[i];
        if kind == ATTR_ID {
            return match &texts[i] {
                Some(t) => Ok(Some(t.clone())),
                None => Err(SessionError::ArgumentsInvalid),
            };
        } else if kind == ATTR_LABEL {
            match &texts[i] {
                Some(t) => {
                    if label.is_none() {
                        label = Some(t.clone());
                    }
                },
                None => {
                    return Err(SessionError::ArgumentsInvalid);
                },
            }
        }
        i += 1;
    }
    Ok(label)
}

/// Extracts the key filter (an id or a label) from a search template.
pub fn find_key_id(template: Option<&Vec<RawAttr>>) -> (r: Result<Option<String>, SessionError>)
    ensures
        filter_view(r) == key_filter(template_view(template)),
{
    match template {
        None => Ok(None),
        Some(t) => {
            let mut kinds: Vec<u64> = Vec::new();
            let mut texts: Vec<Option<String>> = Vec::new();
            let mut i: usize = 0;
            while i < t.len()
                invariant
                    0 <= i <= t.len(),
                    kinds.len() == i,
                    texts.len() == i,
                    kinds@ == template_kinds(t@).take(i as int),
                    texts_view(texts@) == template_texts(t@).take(i as int),
                decreases t.len() - i,
            {
                let a = &t[i];
                let text = if a.kind == ATTR_ID || a.kind == ATTR_LABEL {
                    match &a.value {
                        Some(b) => decode_text(b),
                        None => None,
                    }
                } else {
                    None
                };
                kinds.push(a.kind);
                texts.push(text);
                i += 1;
                assert(kinds@ =~= template_kinds(t@).take(i as int));
                assert(texts_view(texts@) =~= template_texts(t@).take(i as int));
            }
            assert(kinds@ =~= template_kinds(t@));
            assert(texts_view(texts@) =~= template_texts(t@));
            choose_filter(&kinds, &texts)
        },
    }
}

proof fn lemma_scan_reaches_id(
    kinds: Seq<u64>,
    texts: Seq<Option<Seq<char>>>,
    k: int,
    j: int,
    label: Option<Seq<char>>,
)
    requires
        0 <= k <= j < kinds.len(),
        kinds.len() == texts.len(),
        kinds[j] == ATTR_ID,
        texts[j] is Some,
        forall|m: int|
            k <= m < j ==> #[trigger] kinds[m] != ATTR_ID && (kinds[m] == ATTR_LABEL
                ==> texts[m] is Some),
    ensures
        scan_filter(kinds, texts, k, label) == Ok::<Option<Seq<char>>, SessionError>(texts[j]),
    decreases j - k,
{
    if k < j {
        let next = if kinds[k] == ATTR_LABEL && label is None {
            texts[k]
        } else {
            label
        };
        lemma_scan_reaches_id(kinds, texts, k + 1, j, next);
    }
}

proof fn lemma_scan_fails(
    kinds: Seq<u64>,
    texts: Seq<Option<Seq<char>>>,
    k: int,
    i: int,
    label: Option<Seq<char>>,
)
    requires
        0 <= k <= i < kinds.len(),
        kinds.len() == texts.len(),
        is_filter_kind(kinds[i]),
        texts[i] is None,
        forall|m: int| k <= m < i ==> #[trigger] kinds[m] != ATTR_ID,
    ensures
        scan_filter(kinds, texts, k, label) == Err::<Option<Seq<char>>, SessionError>(
            SessionError::ArgumentsInvalid,
        ),
    decreases i - k,
{
    if k < i && !(kinds[k] == ATTR_LABEL && texts[k] is None) {
        let next = if kinds[k] == ATTR_LABEL && label is None {
            texts[k]
        } else {
            label
        };
        lemma_scan_fails(kinds, texts, k + 1, i, next);
    }
}

/// The first ID entry decides the filter, whatever LABEL entries stand before
/// it, as long as each of those holds text.
pub proof fn lemma_id_overrides_label(t: Seq<RawAttr>, j: int)
    requires
        0 <= j < t.len(),
        t[j].kind == ATTR_ID,
        value_text(bytes_view(t[j].value)) is Some,
        forall|m: int|
            0 <= m < j ==> (#[trigger] t[m]).kind != ATTR_ID && (t[m].kind == ATTR_LABEL
                ==> value_text(bytes_view(t[m].value)) is Some),
    ensures
        key_filter(Some(t)) == Ok::<Option<Seq<char>>, SessionError>(
            value_text(bytes_view(t[j].value)),
        ),
{
    let kinds = template_kinds(t);
    let texts = template_texts(t);
    assert forall|m: int| 0 <= m < j implies #[trigger] kinds[m] != ATTR_ID && (kinds[m]
        == ATTR_LABEL ==> texts[m] is Some) by {
        assert(t[m].kind == kinds[m]);
    }
    lemma_scan_reaches_id(kinds, texts, 0, j, None);
}

/// An ID or LABEL entry that the scan reaches (no ID stands before it) and
/// whose value is absent or not text makes the whole template invalid.
pub proof fn lemma_undecodable_rejected(t: Seq<RawAttr>, i: int)
    requires
        0 <= i < t.len(),
        is_filter_kind(t[i].kind),
        value_text(bytes_view(t[i].value)) is None,
        forall|m: int| 0 <= m < i ==> (#[trigger] t[m]).kind != ATTR_ID,
    ensures
        key_filter(Some(t)) == Err::<Option<Seq<char>>, SessionError>(
            SessionError::ArgumentsInvalid,
        ),
{
    let kinds = template_kinds(t);
    let texts = template_texts(t);
    assert forall|m: int| 0 <= m < i implies #[trigger] kinds[m] != ATTR_ID by {
        assert(t[m].kind == kinds[m]);
    }
    lemma_scan_fails(kinds, texts, 0, i, None);
}

} // verus!
