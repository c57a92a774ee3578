//! Language selection: parsing RFC 3066 language tags, the runtime override
//! and its persisted form; message lookup.

pub mod catalog;
pub mod key;

use vstd::prelude::*;
use crate::i18n::catalog::{key_named, message, key_from_name, message_text};

verus! {

/// Supported languages.
#[derive(Clone, Copy, Debug, PartialEq, Eq, Structural)]
pub enum Lang {
    En,
    Ja,
    Zh,
}

/// Length of the leading run of visible ASCII (0x20..=0x7E) in `b`; a NUL or
/// any other byte ends it.
pub open spec fn visible_len(b: Seq<u8>) -> nat
    decreases b.len(),
{
    if b.len() == 0 || b[0] == 0 || b[0] < 0x20 || b[0] > 0x7E {
        0
    } else {
        1 + visible_len(b.drop_first())
    }
}

/// ASCII lower case.
pub open spec fn lower(c: u8) -> u8 {
    if 65 <= c <= 90 { (c + 32) as u8 } else { c }
}

/// Whether the visible prefix of `b` starts with the two letters `c0 c1`, case-insensitively.
pub open spec fn tag_starts(b: Seq<u8>, c0: u8, c1: u8) -> bool {
    visible_len(b) >= 2 && lower(b[0]) == c0 && lower(b[1]) == c1
}

/// The language a tag such as "en-US", "ja-JP" or "zh-CN" names: its first
/// two letters, ignoring case; `None` for any other tag.
pub open spec fn lang_of_tag(b: Seq<u8>) -> Option<Lang> {
    if tag_starts(b, 101, 110) {
        Some(Lang::En)
    } else if tag_starts(b, 106, 97) {
        Some(Lang::Ja)
    } else if tag_starts(b, 122, 104) {
        Some(Lang::Zh)
    } else {
        None
    }
}

proof fn lemma_visible_len(b: Seq<u8>, i: int)
    requires
        0 <= i <= b.len(),
        forall|j: int| 0 <= j < i ==> b[j] != 0 && 0x20 <= b[j] <= 0x7E,
    ensures
        visible_len(b) >= i,
        i < b.len() && (b[i] == 0 || b[i] < 0x20 || b[i] > 0x7E) ==> visible_len(b) == i,
    decreases i,
{
    if i > 0 {
        lemma_visible_len(b.drop_first(), i - 1);
    }
}

fn lower_exec(c: u8) -> (r: u8)
    ensures
        r == lower(c),
{
    if c >= 65 && c <= 90 { c + 32 } else { c }
}

/// Parse a language tag (stopping at the first NUL or non-visible byte).
pub fn parse_platform_lang_ascii(bytes: &[u8]) -> (r: Option<Lang>)
    ensures
        r == lang_of_tag(bytes@),
{
    let mut len: usize = 0;
    while len < bytes.len()
        invariant
            len <= bytes@.len(),
            forall|j: int| 0 <= j < len ==> bytes@[j] != 0 && 0x20 <= bytes@[j] <= 0x7E,
        ensures
            len <= bytes@.len(),
            forall|j: int| 0 <= j < len ==> bytes@[j] != 0 && 0x20 <= bytes@[j] <= 0x7E,
            len < bytes@.len() ==> (bytes@[len as int] == 0 || bytes@[len as int] < 0x20 || bytes@[len as int] > 0x7E),
        decreases bytes@.len() - len,
    {
        let b = bytes[len];
        if b == 0 || b < 0x20 || b > 0x7E {
            break;
        }
        len = len + 1;
    }
    proof {
        lemma_visible_len(bytes@, len as int);
        if len < 2 {
            lemma_visible_len(bytes@, len as int);
        }
    }
    if len < 2 {
        proof {
            if len < bytes@.len() {
                assert(visible_len(bytes@) == len);
            } else {
                assert(visible_len(bytes@) <= bytes@.len()) by {
                    lemma_visible_len_bound(bytes@);
                }
            }
        }
        return None;
    }
    let c0 = lower_exec(bytes[0]);
    let c1 = lower_exec(bytes[1]);
    if c0 == 101 && c1 == 110 {
        Some(Lang::En)
    } else if c0 == 106 && c1 == 97 {
        Some(Lang::Ja)
    } else if c0 == 122 && c1 == 104 {
        Some(Lang::Zh)
    } else {
        None
    }
}

proof fn lemma_visible_len_bound(b: Seq<u8>)
    ensures
        visible_len(b) <= b.len(),
    decreases b.len(),
{
    if b.len() > 0 {
        lemma_visible_len_bound(b.drop_first());
    }
}

/// The runtime language override: 0 automatic, 1 English, 2 Japanese, 3 Chinese.
pub struct LangState {
    pub override_code: u8,
}

/// Storage code of an override.
pub open spec fn override_code(l: Option<Lang>) -> u8 {
    match l {
        None => 0,
        Some(Lang::En) => 1,
        Some(Lang::Ja) => 2,
        Some(Lang::Zh) => 3,
    }
}

/// The override a storage code stands for; unknown codes mean none.
pub open spec fn override_of_code(v: u8) -> Option<Lang> {
    if v == 1 {
        Some(Lang::En)
    } else if v == 2 {
        Some(Lang::Ja)
    } else if v == 3 {
        Some(Lang::Zh)
    } else {
        None
    }
}

impl LangState {
    /// No override.
    pub fn new() -> (s: LangState)
        ensures
            s.override_code == 0,
    {
        LangState { override_code: 0 }
    }
}

/// Set (or, with `None`, clear) the runtime override.
pub fn set_lang_override(st: &mut LangState, l: Option<Lang>)
    ensures
        final(st).override_code == override_code(l),
{
    st.override_code = match l {
        None => 0u8,
        Some(Lang::En) => 1,
        Some(Lang::Ja) => 2,
        Some(Lang::Zh) => 3,
    };
}

/// The runtime override, if one is set.
pub fn read_lang_override(st: &LangState) -> (r: Option<Lang>)
    ensures
        r == override_of_code(st.override_code),
{
    match st.override_code {
        1 => Some(Lang::En),
        2 => Some(Lang::Ja),
        3 => Some(Lang::Zh),
        _ => None,
    }
}

/// The override persisted in the "ZerovisorLang" variable, whose contents are
/// `data` when it could be read: a language tag, or anything else (such as
/// "auto") for none.
pub fn read_persisted_override(data: Option<&[u8]>) -> (r: Option<Lang>)
    ensures
        r == match data {
            Some(d) => lang_of_tag(d@),
            None => None,
        },
{
    match data {
        Some(d) => parse_platform_lang_ascii(d),
        None => None,
    }
}

/// The language to use: the runtime override, else the persisted override,
/// else the firmware's "PlatformLang" tag (`platform_lang`, when it could be
/// read), else English.
pub fn detect_lang(st: &LangState, persisted: Option<&[u8]>, platform_lang: Option<&[u8]>) -> (l: Lang)
    ensures
        l == if override_of_code(st.override_code) is Some {
            override_of_code(st.override_code)->0
        } else if (match persisted { Some(d) => lang_of_tag(d@), None => None }) is Some {
            (match persisted { Some(d) => lang_of_tag(d@), None => None })->0
        } else if (match platform_lang { Some(d) => lang_of_tag(d@), None => None }) is Some {
            (match platform_lang { Some(d) => lang_of_tag(d@), None => None })->0
        } else {
            Lang::En
        },
{
    if let Some(ov) = read_lang_override(st) {
        return ov;
    }
    if let Some(p) = read_persisted_override(persisted) {
        return p;
    }
    if let Some(d) = platform_lang {
        if let Some(l) = parse_platform_lang_ascii(d) {
            return l;
        }
    }
    Lang::En
}

/// The bytes to persist for the current override: "en", "ja" or "zh" with a
/// terminating NUL, or "auto" with a NUL when no override is set.
pub open spec fn saved_bytes(code: u8) -> Seq<u8> {
    if code == 1 {
        seq![101u8, 110, 0]
    } else if code == 2 {
        seq![106u8, 97, 0]
    } else if code == 3 {
        seq![122u8, 104, 0]
    } else {
        seq![97u8, 117, 116, 111, 0]
    }
}

/// The value to write to the "ZerovisorLang" variable for the current override.
pub fn save_lang_override(st: &LangState) -> (r: Vec<u8>)
    ensures
        r@ == saved_bytes(st.override_code),
{
    let r: Vec<u8> = match st.override_code {
        1 => vec![101u8, 110, 0],
        2 => vec![106u8, 97, 0],
        3 => vec![122u8, 104, 0],
        _ => vec![97u8, 117, 116, 111, 0],
    };
    assert(r@ =~= saved_bytes(st.override_code));
    r
}

/// Reading back what was saved gives the override that was set.
pub proof fn lemma_save_then_read(code: u8)
    ensures
        lang_of_tag(saved_bytes(code)) == override_of_code(code),
{
    let b = saved_bytes(code);
    reveal_with_fuel(visible_len, 3);
    assert(b.drop_first().drop_first() =~= b.subrange(2, b.len() as int));
    assert(visible_len(b) >= 2);
}

/// Setting an override and reading it back gives the same override.
pub proof fn lemma_set_then_read(l: Option<Lang>)
    ensures
        override_of_code(override_code(l)) == l,
{
}

/// The text of the message named `key` in language `lang`; an unknown name
/// reads as an empty line.
pub open spec fn translated(lang: Lang, key: Seq<char>) -> Seq<char> {
    match key_named(key) {
        Some(k) => message(lang, k),
        None => "\r\n"@,
    }
}

/// Resolve a message key for a language.
pub fn t(lang: Lang, key: &str) -> (r: &'static str)
    ensures
        r@ == translated(lang, key@),
{
    match key_from_name(key) {
        Some(k) => message_text(lang, k),
        None => "\r\n",
    }
}

} // verus!
