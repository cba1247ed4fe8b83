use vstd::prelude::*;

use super::command::Command;
use super::packet::Packet;

verus! {

/// Extended command that selects a clock face.
pub const SET_USER_DEFINE_TIME: u8 = 0x14;

/// Extended command that asks for the selected clock face.
pub const GET_USER_DEFINE_TIME: u8 = 0x15;

/// Extended command that selects the language of the device.
pub const SET_LANGUAGE: u8 = 0x26;

/// Builds the packet of an extended command: the extended command type
/// followed by its parameters.
pub fn build_packet(ext_cmd_type: u8, params: &[u8]) -> (p: Packet)
    ensures
        p.command == Command::ExtendedCommand,
        p.payload@ == seq![ext_cmd_type] + params@,
{
    let mut payload: Vec<u8> = Vec::new();
    payload.push(ext_cmd_type);
    let n = params.len();
    let mut i: usize = 0;
    while i < n
        invariant
            n == params@.len(),
            i <= n,
            payload@ == seq![ext_cmd_type] + params@.subrange(0, i as int),
        decreases n - i,
    {
        payload.push(params[i]);
        i = i + 1;
        assert(params@.subrange(0, i as int) =~= params@.subrange(0, i - 1).push(params@[i - 1]));
    }
    assert(params@.subrange(0, n as int) =~= params@);
    Packet { command: Command::ExtendedCommand, payload }
}

/// The language codes the device knows, in the order of their indices.
pub const SUPPORTED_LANGUAGES: [&'static str; 16] = [
    "en",
    "zh-hans",
    "zh-hant",
    "ja",
    "th",
    "fr",
    "it",
    "he",
    "es",
    "de",
    "ru",
    "pt",
    "ko",
    "nl",
    "uk",
    "ms",
];

/// The code of the language with index `i` (0 <= i < 16).
pub open spec fn language_code(i: int) -> Seq<char> {
    if i == 0 {
        seq!['e', 'n']
    } else if i == 1 {
        seq!['z', 'h', '-', 'h', 'a', 'n', 's']
    } else if i == 2 {
        seq!['z', 'h', '-', 'h', 'a', 'n', 't']
    } else if i == 3 {
        seq!['j', 'a']
    } else if i == 4 {
        seq!['t', 'h']
    } else if i == 5 {
        seq!['f', 'r']
    } else if i == 6 {
        seq!['i', 't']
    } else if i == 7 {
        seq!['h', 'e']
    } else if i == 8 {
        seq!['e', 's']
    } else if i == 9 {
        seq!['d', 'e']
    } else if i == 10 {
        seq!['r', 'u']
    } else if i == 11 {
        seq!['p', 't']
    } else if i == 12 {
        seq!['k', 'o']
    } else if i == 13 {
        seq!['n', 'l']
    } else if i == 14 {
        seq!['u', 'k']
    } else {
        seq!['m', 's']
    }
}

/// The index of the first language, from `from` on, whose code is `lang`.
pub open spec fn find_language(lang: Seq<char>, from: int) -> Option<u8>
    decreases 16 - from,
{
    if from < 0 || from >= 16 {
        None
    } else if lang == language_code(from) {
        Some(from as u8)
    } else {
        find_language(lang, from + 1)
    }
}

/// What `language_index` gives for the code `lang`.
pub open spec fn spec_language_index(lang: Seq<char>) -> Option<u8> {
    find_language(lang, 0)
}

/// The entries of `SUPPORTED_LANGUAGES` are the language codes, in order.
pub proof fn lemma_supported_languages_are_codes()
    ensures
        forall|i: int| 0 <= i < 16 ==> (#[trigger] SUPPORTED_LANGUAGES@[i])@ == language_code(i),
{
    reveal_strlit("en");
    reveal_strlit("zh-hans");
    reveal_strlit("zh-hant");
    reveal_strlit("ja");
    reveal_strlit("th");
    reveal_strlit("fr");
    reveal_strlit("it");
    reveal_strlit("he");
    reveal_strlit("es");
    reveal_strlit("de");
    reveal_strlit("ru");
    reveal_strlit("pt");
    reveal_strlit("ko");
    reveal_strlit("nl");
    reveal_strlit("uk");
    reveal_strlit("ms");
    assert forall|i: int| 0 <= i < 16 implies (#[trigger] SUPPORTED_LANGUAGES@[i])@ == language_code(i) by {
        assert(seq!['e', 'n'] =~= "en"@);
    }
}

/// Collects the characters of `s`.
pub(crate) fn chars_of(s: &str) -> (v: Vec<char>)
    ensures
        v@ == s@,
{
    let mut v: Vec<char> = Vec::new();
    for c in it: s.chars()
        invariant
            v@ == it.seq().take(it.index() as int),
    {
        v.push(c);
    }
    v
}

/// Whether two character sequences are equal.
fn chars_equal(a: &Vec<char>, b: &Vec<char>) -> (r: bool)
    ensures
        r == (a@ == b@),
{
    if a.len() != b.len() {
        return false;
    }
    let n = a.len();
    let mut i: usize = 0;
    while i < n
        invariant
            n == a@.len(),
            n == b@.len(),
            i <= n,
            forall|j: int| 0 <= j < i ==> a@[j] == b@[j],
        decreases n - i,
    {
        if a[i] != b[i] {
            return false;
        }
        i = i + 1;
    }
    assert(a@ =~= b@);
    true
}

/// The index of the language whose code is `lang`, or `None` for an unknown
/// code.
pub fn language_index(lang: &str) -> (r: Option<u8>)
    ensures
        r == spec_language_index(lang@),
{
    proof {
        lemma_supported_languages_are_codes();
    }
    let chars = chars_of(lang);
    let mut i: usize = 0;
    while i < 16
        invariant
            i <= 16,
            chars@ == lang@,
            forall|k: int| 0 <= k < 16 ==> (#[trigger] SUPPORTED_LANGUAGES@[k])@ == language_code(k),
            spec_language_index(lang@) == find_language(lang@, i as int),
        decreases 16 - i,
    {
        let code = chars_of(SUPPORTED_LANGUAGES[i]);
        if chars_equal(&chars, &code) {
            return Some(i as u8);
        }
        i = i + 1;
    }
    None
}

/// The language codes and their indices agree: the code at index `i` of
/// `SUPPORTED_LANGUAGES` has index `i`, and every code that has an index is
/// the entry of `SUPPORTED_LANGUAGES` at that index.
pub proof fn lemma_language_index_matches_list(lang: Seq<char>, i: int)
    requires
        0 <= i < 16,
    ensures
        spec_language_index(SUPPORTED_LANGUAGES@[i]@) == Some(i as u8),
        spec_language_index(lang) == Some(i as u8) <==> lang == SUPPORTED_LANGUAGES@[i]@,
{
    lemma_supported_languages_are_codes();
    lemma_find_language(lang, 0, i);
    lemma_find_language(language_code(i), 0, i);
}

/// Different indices have different language codes.
proof fn lemma_language_codes_differ(j: int, k: int)
    requires
        0 <= j < k < 16,
    ensures
        language_code(j) != language_code(k),
{
    let a = language_code(j);
    let b = language_code(k);
    if a == b {
        assert(a.len() == b.len());
        assert(a[0] == b[0]);
        assert(a[1] == b[1]);
        if a.len() == 7 {
            assert(a[6] == b[6]);
        }
    }
}

/// `find_language` from `from` finds the index `i` exactly when `lang` is
/// the code of `i`, the codes being pairwise different.
proof fn lemma_find_language(lang: Seq<char>, from: int, i: int)
    requires
        0 <= from <= i < 16,
    ensures
        find_language(lang, from) == Some(i as u8) <==> lang == language_code(i),
    decreases 16 - from,
{
    lemma_find_language_range(lang, from);
    if from < i {
        lemma_language_codes_differ(from, i);
        lemma_find_language(lang, from + 1, i);
    } else {
        lemma_find_language_range(lang, from + 1);
    }
}

/// `find_language` from `from` only finds indices from `from` on.
proof fn lemma_find_language_range(lang: Seq<char>, from: int)
    requires
        0 <= from,
    ensures
        find_language(lang, from) matches Some(x) ==> from <= x < 16,
    decreases 16 - from,
{
    if from < 16 {
        lemma_find_language_range(lang, from + 1);
    }
}

} // verus!
